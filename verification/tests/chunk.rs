use diablo::chunk::{Chunk, Op, Value};

fn number(x: f64) -> Value {
    Value::Number(x.to_bits())
}

fn float(v: Value) -> f64 {
    match v {
        Value::Number(bits) => f64::from_bits(bits),
    }
}

#[test]
fn new_chunk_is_empty() {
    let chunk = Chunk::new();
    assert!(chunk.code.is_empty());
    assert!(chunk.constants.is_empty());
    assert!(chunk.lines.is_empty());
}

#[test]
fn add_constant_returns_the_new_length() {
    let mut chunk = Chunk::new();
    let len = chunk.add_constant(number(1.5));
    assert_eq!(len, 1);
    assert_eq!(chunk.constants.len(), 1);
    assert_eq!(float(chunk.read_constant((len - 1) as u8)), 1.5);
    let len = chunk.add_constant(number(2.5));
    assert_eq!(len, 2);
    assert_eq!(float(chunk.read_constant(0)), 1.5);
    assert_eq!(float(chunk.read_constant(1)), 2.5);
}

#[test]
fn pool_fills_up_to_its_cap() {
    let mut chunk = Chunk::new();
    for i in 0..256usize {
        assert_eq!(chunk.add_constant(number(i as f64)), i + 1);
    }
    assert_eq!(float(chunk.read_constant(255)), 255.0);
}

#[test]
fn full_pool_takes_no_more() {
    let mut chunk = Chunk::new();
    assert_eq!(chunk.try_add_constant(number(0.5)), Some(1));
    assert_eq!(float(chunk.read_constant(0)), 0.5);
    for i in 1..256usize {
        assert_eq!(chunk.try_add_constant(number(i as f64)), Some(i + 1));
    }
    assert_eq!(chunk.constants.len(), 256);
    assert_eq!(chunk.try_add_constant(number(256.0)), None);
    assert_eq!(chunk.try_add_constant(number(257.0)), None);
    assert_eq!(chunk.constants.len(), 256);
    assert_eq!(float(chunk.read_constant(255)), 255.0);
    assert!(chunk.code.is_empty());
    assert!(chunk.lines.is_empty());
}

#[test]
fn write_keeps_code_and_lines_together() {
    let mut chunk = Chunk::new();
    chunk.write(Op::Constant(0), 3);
    chunk.write(Op::Negate, 3);
    chunk.write(Op::Return, 4);
    assert_eq!(chunk.code.len(), 3);
    assert_eq!(chunk.lines, vec![3, 3, 4]);
    assert!(matches!(chunk.read(0), Op::Constant(0)));
    assert!(matches!(chunk.read(1), Op::Negate));
    assert!(matches!(chunk.read(2), Op::Return));
    assert!(chunk.constants.is_empty());
}

#[test]
fn negate_is_the_negation_of_doubles() {
    let samples = [
        0.0,
        -0.0,
        1.0,
        -2.5,
        f64::INFINITY,
        f64::NEG_INFINITY,
        f64::NAN,
        f64::MIN_POSITIVE,
        f64::MAX,
        5e-324,
    ];
    for x in samples {
        match number(x).negate() {
            Value::Number(bits) => assert_eq!(bits, (-x).to_bits()),
        }
    }
    assert_eq!(float(number(3.0).negate()), -3.0);
    assert_eq!(float(number(3.0).negate().negate()), 3.0);
}

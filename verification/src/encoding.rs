//! Facts about UTF-8 text that let the scanner cut a lexeme out of its
//! source at byte offsets.
use vstd::prelude::*;
use vstd::utf8::{
    is_char_boundary, is_char_boundary_iff_not_is_continuation_byte,
    is_char_boundary_start_end_of_seq, is_continuation_byte, pop_first_scalar, valid_first_scalar,
    valid_utf8, valid_utf8_split,
};

verus! {

/// A byte below 128 stands for itself in UTF-8: it is a whole character.
pub open spec fn ascii(c: u8) -> bool {
    c < 128
}

/// An ASCII byte begins a character.
pub proof fn lemma_boundary_before_ascii(s: Seq<u8>, i: int)
    requires
        valid_utf8(s),
        0 <= i < s.len(),
        ascii(s[i]),
    ensures
        is_char_boundary(s, i),
{
    is_char_boundary_iff_not_is_continuation_byte(s, i);
}

/// An ASCII byte ends a character: what follows it begins the next one.
pub proof fn lemma_boundary_after_ascii(s: Seq<u8>, i: int)
    requires
        valid_utf8(s),
        0 <= i < s.len(),
        ascii(s[i]),
    ensures
        is_char_boundary(s, i + 1),
{
    lemma_boundary_before_ascii(s, i);
    if i + 1 == s.len() {
        is_char_boundary_start_end_of_seq(s);
    } else {
        let tail = s.subrange(i, s.len() as int);
        valid_utf8_split(s, i);
        assert(tail[0] == s[i]);
        let rest = pop_first_scalar(tail);
        assert(rest =~= s.subrange(i + 1, s.len() as int));
        assert(valid_utf8(rest));
        assert(valid_first_scalar(rest));
        assert(rest[0] == s[i + 1]);
        assert(!is_continuation_byte(s[i + 1]));
        is_char_boundary_iff_not_is_continuation_byte(s, i + 1);
    }
}

/// A character boundary of a text is one of each prefix that reaches it
/// and ends on a boundary itself.
pub proof fn lemma_boundary_in_prefix(s: Seq<u8>, a: int, b: int)
    requires
        valid_utf8(s),
        0 <= a <= b <= s.len(),
        is_char_boundary(s, a),
        is_char_boundary(s, b),
    ensures
        valid_utf8(s.subrange(0, b)),
        is_char_boundary(s.subrange(0, b), a),
{
    let head = s.subrange(0, b);
    valid_utf8_split(s, b);
    if a == b {
        is_char_boundary_start_end_of_seq(head);
    } else {
        is_char_boundary_iff_not_is_continuation_byte(s, a);
        assert(head[a] == s[a]);
        is_char_boundary_iff_not_is_continuation_byte(head, a);
    }
}

} // verus!

//! The lexical grammar, stated over the bytes of a source text.
//!
//! The functions here say what a token is, and the lemmas are facts about
//! them. The scanner is proved to follow the grammar byte for byte, so what
//! it returns can be read here without reading the scanner.
use crate::scanner::TokenType;
use vstd::prelude::*;
use vstd::string::{is_ascii, is_ascii_spec_bytes, StringSliceAdditionalSpecFns};

verus! {

/// An ASCII decimal digit.
pub open spec fn digit(c: u8) -> bool {
    '0' as u8 <= c <= '9' as u8
}

/// An ASCII letter or an underscore.
pub open spec fn letter(c: u8) -> bool {
    ('a' as u8 <= c <= 'z' as u8) || ('A' as u8 <= c <= 'Z' as u8) || c == '_' as u8
}

/// A byte that separates tokens and belongs to none: space, carriage
/// return, tab or newline.
pub open spec fn blank(c: u8) -> bool {
    c == ' ' as u8 || c == '\r' as u8 || c == '\t' as u8 || c == '\n' as u8
}

/// The first index at or after `i` whose byte fails `p`; the length of `s`
/// when every byte from `i` on passes.
pub open spec fn run_end(s: Seq<u8>, i: int, p: spec_fn(u8) -> bool) -> int
    decreases s.len() - i,
{
    if 0 <= i < s.len() && p(s[i]) {
        run_end(s, i + 1, p)
    } else {
        i
    }
}

/// Where the run of digits that begins at `i` ends.
pub open spec fn digits_end(s: Seq<u8>, i: int) -> int {
    run_end(s, i, |c: u8| digit(c))
}

/// Where the run of letters, digits and underscores that begins at `i` ends.
pub open spec fn word_end(s: Seq<u8>, i: int) -> int {
    run_end(s, i, |c: u8| letter(c) || digit(c))
}

/// The index of the first newline at or after `i`, or the length of `s`.
pub open spec fn line_end(s: Seq<u8>, i: int) -> int {
    run_end(s, i, |c: u8| c != '\n' as u8)
}

/// The index of the first double quote at or after `i`, or the length of `s`.
pub open spec fn quote_pos(s: Seq<u8>, i: int) -> int {
    run_end(s, i, |c: u8| c != '"' as u8)
}

/// The number of newlines among the bytes of `s` from `from` up to `to`.
pub open spec fn newlines(s: Seq<u8>, from: int, to: int) -> nat
    decreases to - from,
{
    if 0 <= from < to <= s.len() {
        newlines(s, from, to - 1) + if s[to - 1] == '\n' as u8 {
            1nat
        } else {
            0nat
        }
    } else {
        0
    }
}

/// Whether a `//` comment opens at `i`.
pub open spec fn comment_at(s: Seq<u8>, i: int) -> bool {
    0 <= i && i + 1 < s.len() && s[i] == '/' as u8 && s[i + 1] == '/' as u8
}

/// Where the next token starts when scanning resumes at `i`: the first
/// index at or after `i` that lies neither on a blank nor inside a `//`
/// comment, which runs up to the end of its line.
pub open spec fn skip_end(s: Seq<u8>, i: int) -> int
    decreases s.len() - i,
    via skip_end_decreases
{
    if i < 0 || i >= s.len() {
        i
    } else if blank(s[i]) {
        skip_end(s, i + 1)
    } else if comment_at(s, i) {
        skip_end(s, line_end(s, i + 2))
    } else {
        i
    }
}

#[via_fn]
proof fn skip_end_decreases(s: Seq<u8>, i: int) {
    if 0 <= i < s.len() && !blank(s[i]) && comment_at(s, i) {
        lemma_run_end(s, i + 2, |c: u8| c != '\n' as u8);
    }
}

/// The token that a single punctuation byte makes, if it makes one.
pub open spec fn punctuation(c: u8) -> Option<TokenType> {
    if c == '(' as u8 {
        Some(TokenType::LeftParen)
    } else if c == ')' as u8 {
        Some(TokenType::RightParen)
    } else if c == '{' as u8 {
        Some(TokenType::LeftBrace)
    } else if c == '}' as u8 {
        Some(TokenType::RightBrace)
    } else if c == ';' as u8 {
        Some(TokenType::Semicolon)
    } else if c == ',' as u8 {
        Some(TokenType::Comma)
    } else if c == '.' as u8 {
        Some(TokenType::Dot)
    } else if c == '-' as u8 {
        Some(TokenType::Minus)
    } else if c == '+' as u8 {
        Some(TokenType::Plus)
    } else if c == '/' as u8 {
        Some(TokenType::Slash)
    } else if c == '*' as u8 {
        Some(TokenType::Star)
    } else {
        None
    }
}

/// The token that an operator byte makes: the two-byte operator when
/// `extended` (an `=` follows it), the one-byte operator otherwise.
pub open spec fn operator(c: u8, extended: bool) -> Option<TokenType> {
    if c == '!' as u8 {
        Some(if extended { TokenType::BangEqual } else { TokenType::Bang })
    } else if c == '=' as u8 {
        Some(if extended { TokenType::EqualEqual } else { TokenType::Equal })
    } else if c == '<' as u8 {
        Some(if extended { TokenType::LessEqual } else { TokenType::Less })
    } else if c == '>' as u8 {
        Some(if extended { TokenType::GreaterEqual } else { TokenType::Greater })
    } else {
        None
    }
}

/// The keyword that `word` spells, if it spells one. A word is a keyword
/// only as a whole: one that merely begins with a keyword is none.
pub open spec fn keyword(word: Seq<u8>) -> Option<TokenType> {
    if word == "and".spec_bytes() {
        Some(TokenType::And)
    } else if word == "class".spec_bytes() {
        Some(TokenType::Class)
    } else if word == "else".spec_bytes() {
        Some(TokenType::Else)
    } else if word == "false".spec_bytes() {
        Some(TokenType::False)
    } else if word == "for".spec_bytes() {
        Some(TokenType::For)
    } else if word == "fun".spec_bytes() {
        Some(TokenType::Fun)
    } else if word == "if".spec_bytes() {
        Some(TokenType::If)
    } else if word == "nil".spec_bytes() {
        Some(TokenType::Nil)
    } else if word == "or".spec_bytes() {
        Some(TokenType::Or)
    } else if word == "print".spec_bytes() {
        Some(TokenType::Print)
    } else if word == "return".spec_bytes() {
        Some(TokenType::Return)
    } else if word == "super".spec_bytes() {
        Some(TokenType::Super)
    } else if word == "this".spec_bytes() {
        Some(TokenType::This)
    } else if word == "true".spec_bytes() {
        Some(TokenType::True)
    } else if word == "var".spec_bytes() {
        Some(TokenType::Var)
    } else if word == "while".spec_bytes() {
        Some(TokenType::While)
    } else {
        None
    }
}

/// Whether the byte at `p` is followed by an `=`.
pub open spec fn equal_follows(s: Seq<u8>, p: int) -> bool {
    0 <= p && p + 1 < s.len() && s[p + 1] == '=' as u8
}

/// Where a number that begins at `p` ends: after its digits, and after a
/// fraction when a dot and at least one more digit follow them.
pub open spec fn number_end(s: Seq<u8>, p: int) -> int {
    let e = digits_end(s, p);
    if e + 1 < s.len() && s[e] == '.' as u8 && digit(s[e + 1]) {
        digits_end(s, e + 1)
    } else {
        e
    }
}

/// The index just past the token that starts at `p`. At the end of the
/// text the token is empty. A string without its closing quote takes all
/// that is left of the text.
pub open spec fn token_end(s: Seq<u8>, p: int) -> int {
    if p < 0 || p >= s.len() {
        p
    } else if operator(s[p], false).is_some() {
        if equal_follows(s, p) {
            p + 2
        } else {
            p + 1
        }
    } else if s[p] == '"' as u8 {
        if quote_pos(s, p + 1) < s.len() {
            quote_pos(s, p + 1) + 1
        } else {
            s.len() as int
        }
    } else if digit(s[p]) {
        number_end(s, p)
    } else if letter(s[p]) {
        word_end(s, p)
    } else {
        p + 1
    }
}

/// The kind of the token that starts at `p`.
pub open spec fn token_kind(s: Seq<u8>, p: int) -> TokenType {
    if p < 0 || p >= s.len() {
        TokenType::Eof
    } else if punctuation(s[p]).is_some() {
        punctuation(s[p]).unwrap()
    } else if operator(s[p], false).is_some() {
        operator(s[p], equal_follows(s, p)).unwrap()
    } else if s[p] == '"' as u8 {
        if quote_pos(s, p + 1) < s.len() {
            TokenType::String
        } else {
            TokenType::Error
        }
    } else if digit(s[p]) {
        TokenType::Number
    } else if letter(s[p]) {
        match keyword(s.subrange(p, word_end(s, p))) {
            Some(kind) => kind,
            None => TokenType::Identifier,
        }
    } else {
        TokenType::Error
    }
}

/// Whether an error token comes up when the text is scanned from `i` on.
pub open spec fn lexical_error(s: Seq<u8>, i: int) -> bool
    decreases s.len() - i,
    via lexical_error_decreases
{
    let p = skip_end(s, i);
    if i < 0 || p >= s.len() {
        false
    } else if token_kind(s, p) == TokenType::Error {
        true
    } else {
        lexical_error(s, token_end(s, p))
    }
}

#[via_fn]
proof fn lexical_error_decreases(s: Seq<u8>, i: int) {
    if 0 <= i <= s.len() {
        lemma_skip_end(s, i);
        let p = skip_end(s, i);
        if p < s.len() {
            lemma_token_progress(s, p);
        }
    }
}

/// What an error token that starts at `p` says.
pub open spec fn error_message(s: Seq<u8>, p: int) -> Seq<char> {
    if 0 <= p < s.len() && s[p] == '"' as u8 {
        "Unterminated string"@
    } else {
        "Unexpected character"@
    }
}

/// A run ends at or after its start and within the text; every byte of it
/// passes `p`, and the byte that follows it, if there is one, does not.
pub proof fn lemma_run_end(s: Seq<u8>, i: int, p: spec_fn(u8) -> bool)
    requires
        0 <= i <= s.len(),
    ensures
        i <= run_end(s, i, p) <= s.len(),
        forall|k: int| i <= k < run_end(s, i, p) ==> p(#[trigger] s[k]),
        run_end(s, i, p) < s.len() ==> !p(s[run_end(s, i, p)]),
    decreases s.len() - i,
{
    if i < s.len() && p(s[i]) {
        lemma_run_end(s, i + 1, p);
    }
}

/// The bytes of an ASCII text are its characters, one for one.
pub proof fn lemma_ascii_bytes(text: &str)
    requires
        is_ascii(text),
    ensures
        text.spec_bytes().len() == text@.len(),
        forall|i: int| 0 <= i < text@.len() ==> #[trigger] text.spec_bytes()[i] == text@[i] as u8,
{
    is_ascii_spec_bytes(text);
}

/// The word from `p` up to `e` spells the ASCII text `full` exactly when,
/// its first `n` bytes being those of `full`, what follows them spells
/// `rest`, the rest of `full`, and nothing more.
pub proof fn lemma_spelling_tail(s: Seq<u8>, p: int, e: int, full: &str, rest: &str, n: int)
    requires
        is_ascii(full),
        is_ascii(rest),
        0 <= p,
        0 <= n,
        p + n <= e <= s.len(),
        full@.len() == n + rest@.len(),
        forall|i: int| 0 <= i < rest@.len() ==> full@[n + i] == #[trigger] rest@[i],
        forall|i: int| 0 <= i < n ==> #[trigger] s[p + i] == full@[i] as u8,
    ensures
        s.subrange(p, e) == full.spec_bytes() <==> (e - p == n + rest.spec_bytes().len()
            && s.subrange(p + n, e) == rest.spec_bytes()),
{
    lemma_ascii_bytes(full);
    lemma_ascii_bytes(rest);
    let word = s.subrange(p, e);
    let tail = s.subrange(p + n, e);
    if word == full.spec_bytes() {
        assert forall|i: int| 0 <= i < tail.len() implies tail[i] == rest.spec_bytes()[i] by {
            assert(tail[i] == word[n + i]);
            assert(rest@[i] == full@[n + i]);
        }
        assert(tail =~= rest.spec_bytes());
    }
    if e - p == n + rest.spec_bytes().len() && tail == rest.spec_bytes() {
        assert forall|i: int| 0 <= i < word.len() implies word[i] == full.spec_bytes()[i] by {
            if i >= n {
                assert(word[i] == tail[i - n]);
                assert(rest@[i - n] == full@[n + (i - n)]);
            } else {
                assert(word[i] == s[p + i]);
            }
        }
        assert(word =~= full.spec_bytes());
    }
}

/// Whether the word from `p` up to `e` is `text`.
pub open spec fn spells(s: Seq<u8>, p: int, e: int, text: &str) -> bool {
    s.subrange(p, e) == text.spec_bytes()
}

/// Whether the byte at `p`, before `e`, is the letter `c`.
pub open spec fn begins(s: Seq<u8>, p: int, e: int, c: char) -> bool {
    0 <= p < e <= s.len() && s[p] == c as u8
}

/// Whether the word from `p` up to `e`, `n` bytes in, goes on with exactly
/// `rest` and then ends.
pub open spec fn tail_is(s: Seq<u8>, p: int, e: int, n: int, rest: &str) -> bool {
    e - p == n + rest.spec_bytes().len() && spells(s, p + n, e, rest)
}

/// The keyword table by first letters: a word that begins as a keyword does
/// is that keyword exactly when it goes on as the keyword does.
pub proof fn lemma_keyword_tails(s: Seq<u8>, p: int, e: int)
    requires
        0 <= p < e <= s.len(),
    ensures
        begins(s, p, e, 'a') ==> (spells(s, p, e, "and") <==> tail_is(s, p, e, 1, "nd")),
        begins(s, p, e, 'c') ==> (spells(s, p, e, "class") <==> tail_is(s, p, e, 1, "lass")),
        begins(s, p, e, 'e') ==> (spells(s, p, e, "else") <==> tail_is(s, p, e, 1, "lse")),
        begins(s, p, e, 'f') && begins(s, p + 1, e, 'a') ==> (spells(s, p, e, "false")
            <==> tail_is(s, p, e, 2, "lse")),
        begins(s, p, e, 'f') && begins(s, p + 1, e, 'o') ==> (spells(s, p, e, "for")
            <==> tail_is(s, p, e, 2, "r")),
        begins(s, p, e, 'f') && begins(s, p + 1, e, 'u') ==> (spells(s, p, e, "fun")
            <==> tail_is(s, p, e, 2, "n")),
        begins(s, p, e, 'i') ==> (spells(s, p, e, "if") <==> tail_is(s, p, e, 1, "f")),
        begins(s, p, e, 'n') ==> (spells(s, p, e, "nil") <==> tail_is(s, p, e, 1, "il")),
        begins(s, p, e, 'o') ==> (spells(s, p, e, "or") <==> tail_is(s, p, e, 1, "r")),
        begins(s, p, e, 'p') ==> (spells(s, p, e, "print") <==> tail_is(s, p, e, 1, "rint")),
        begins(s, p, e, 'r') ==> (spells(s, p, e, "return") <==> tail_is(s, p, e, 1, "eturn")),
        begins(s, p, e, 's') ==> (spells(s, p, e, "super") <==> tail_is(s, p, e, 1, "uper")),
        begins(s, p, e, 't') && begins(s, p + 1, e, 'h') ==> (spells(s, p, e, "this")
            <==> tail_is(s, p, e, 2, "is")),
        begins(s, p, e, 't') && begins(s, p + 1, e, 'r') ==> (spells(s, p, e, "true")
            <==> tail_is(s, p, e, 2, "ue")),
        begins(s, p, e, 'v') ==> (spells(s, p, e, "var") <==> tail_is(s, p, e, 1, "ar")),
        begins(s, p, e, 'w') ==> (spells(s, p, e, "while") <==> tail_is(s, p, e, 1, "hile")),
{
    if begins(s, p, e, 'a') {
        reveal_strlit("and");
        reveal_strlit("nd");
        lemma_spelling_tail(s, p, e, "and", "nd", 1);
    }
    if begins(s, p, e, 'c') {
        reveal_strlit("class");
        reveal_strlit("lass");
        lemma_spelling_tail(s, p, e, "class", "lass", 1);
    }
    if begins(s, p, e, 'e') {
        reveal_strlit("else");
        reveal_strlit("lse");
        lemma_spelling_tail(s, p, e, "else", "lse", 1);
    }
    if begins(s, p, e, 'f') && begins(s, p + 1, e, 'a') {
        reveal_strlit("false");
        reveal_strlit("lse");
        lemma_spelling_tail(s, p, e, "false", "lse", 2);
    }
    if begins(s, p, e, 'f') && begins(s, p + 1, e, 'o') {
        reveal_strlit("for");
        reveal_strlit("r");
        lemma_spelling_tail(s, p, e, "for", "r", 2);
    }
    if begins(s, p, e, 'f') && begins(s, p + 1, e, 'u') {
        reveal_strlit("fun");
        reveal_strlit("n");
        lemma_spelling_tail(s, p, e, "fun", "n", 2);
    }
    if begins(s, p, e, 'i') {
        reveal_strlit("if");
        reveal_strlit("f");
        lemma_spelling_tail(s, p, e, "if", "f", 1);
    }
    if begins(s, p, e, 'n') {
        reveal_strlit("nil");
        reveal_strlit("il");
        lemma_spelling_tail(s, p, e, "nil", "il", 1);
    }
    if begins(s, p, e, 'o') {
        reveal_strlit("or");
        reveal_strlit("r");
        lemma_spelling_tail(s, p, e, "or", "r", 1);
    }
    if begins(s, p, e, 'p') {
        reveal_strlit("print");
        reveal_strlit("rint");
        lemma_spelling_tail(s, p, e, "print", "rint", 1);
    }
    if begins(s, p, e, 'r') {
        reveal_strlit("return");
        reveal_strlit("eturn");
        lemma_spelling_tail(s, p, e, "return", "eturn", 1);
    }
    if begins(s, p, e, 's') {
        reveal_strlit("super");
        reveal_strlit("uper");
        lemma_spelling_tail(s, p, e, "super", "uper", 1);
    }
    if begins(s, p, e, 't') && begins(s, p + 1, e, 'h') {
        reveal_strlit("this");
        reveal_strlit("is");
        lemma_spelling_tail(s, p, e, "this", "is", 2);
    }
    if begins(s, p, e, 't') && begins(s, p + 1, e, 'r') {
        reveal_strlit("true");
        reveal_strlit("ue");
        lemma_spelling_tail(s, p, e, "true", "ue", 2);
    }
    if begins(s, p, e, 'v') {
        reveal_strlit("var");
        reveal_strlit("ar");
        lemma_spelling_tail(s, p, e, "var", "ar", 1);
    }
    if begins(s, p, e, 'w') {
        reveal_strlit("while");
        reveal_strlit("hile");
        lemma_spelling_tail(s, p, e, "while", "hile", 1);
    }
}

/// Every keyword has two letters or more, and these are the first two of
/// each.
pub proof fn lemma_keyword_initials(word: Seq<u8>)
    ensures
        keyword(word).is_some() ==> word.len() >= 2,
        keyword(word) == Some(TokenType::And) ==> word[0] == 'a' as u8 && word[1] == 'n' as u8,
        keyword(word) == Some(TokenType::Class) ==> word[0] == 'c' as u8 && word[1] == 'l' as u8,
        keyword(word) == Some(TokenType::Else) ==> word[0] == 'e' as u8 && word[1] == 'l' as u8,
        keyword(word) == Some(TokenType::False) ==> word[0] == 'f' as u8 && word[1] == 'a' as u8,
        keyword(word) == Some(TokenType::For) ==> word[0] == 'f' as u8 && word[1] == 'o' as u8,
        keyword(word) == Some(TokenType::Fun) ==> word[0] == 'f' as u8 && word[1] == 'u' as u8,
        keyword(word) == Some(TokenType::If) ==> word[0] == 'i' as u8 && word[1] == 'f' as u8,
        keyword(word) == Some(TokenType::Nil) ==> word[0] == 'n' as u8 && word[1] == 'i' as u8,
        keyword(word) == Some(TokenType::Or) ==> word[0] == 'o' as u8 && word[1] == 'r' as u8,
        keyword(word) == Some(TokenType::Print) ==> word[0] == 'p' as u8 && word[1] == 'r' as u8,
        keyword(word) == Some(TokenType::Return) ==> word[0] == 'r' as u8 && word[1] == 'e' as u8,
        keyword(word) == Some(TokenType::Super) ==> word[0] == 's' as u8 && word[1] == 'u' as u8,
        keyword(word) == Some(TokenType::This) ==> word[0] == 't' as u8 && word[1] == 'h' as u8,
        keyword(word) == Some(TokenType::True) ==> word[0] == 't' as u8 && word[1] == 'r' as u8,
        keyword(word) == Some(TokenType::Var) ==> word[0] == 'v' as u8 && word[1] == 'a' as u8,
        keyword(word) == Some(TokenType::While) ==> word[0] == 'w' as u8 && word[1] == 'h' as u8,
{
    reveal_strlit("and");
    reveal_strlit("class");
    reveal_strlit("else");
    reveal_strlit("false");
    reveal_strlit("for");
    reveal_strlit("fun");
    reveal_strlit("if");
    reveal_strlit("nil");
    reveal_strlit("or");
    reveal_strlit("print");
    reveal_strlit("return");
    reveal_strlit("super");
    reveal_strlit("this");
    reveal_strlit("true");
    reveal_strlit("var");
    reveal_strlit("while");
    lemma_ascii_bytes("and");
    lemma_ascii_bytes("class");
    lemma_ascii_bytes("else");
    lemma_ascii_bytes("false");
    lemma_ascii_bytes("for");
    lemma_ascii_bytes("fun");
    lemma_ascii_bytes("if");
    lemma_ascii_bytes("nil");
    lemma_ascii_bytes("or");
    lemma_ascii_bytes("print");
    lemma_ascii_bytes("return");
    lemma_ascii_bytes("super");
    lemma_ascii_bytes("this");
    lemma_ascii_bytes("true");
    lemma_ascii_bytes("var");
    lemma_ascii_bytes("while");
}

/// A keyword is a keyword only as a whole: none of them goes on into
/// another one, so a word that begins with a keyword and goes on is no
/// keyword.
pub proof fn lemma_keyword_exact(word: Seq<u8>, longer: Seq<u8>)
    requires
        keyword(word).is_some(),
        word.len() <= longer.len(),
        longer.subrange(0, word.len() as int) == word,
        keyword(longer).is_some(),
    ensures
        longer == word,
{
    lemma_keyword_initials(word);
    lemma_keyword_initials(longer);
    assert(word[0] == longer.subrange(0, word.len() as int)[0]);
    assert(word[1] == longer.subrange(0, word.len() as int)[1]);
}

/// An operator takes the `=` that follows it: with one it is the two-byte
/// operator and nothing less, without one the one-byte operator.
pub proof fn lemma_operator_munch(s: Seq<u8>, p: int)
    requires
        0 <= p < s.len(),
        operator(s[p], false).is_some(),
    ensures
        token_kind(s, p) == operator(s[p], equal_follows(s, p)).unwrap(),
        token_end(s, p) == if equal_follows(s, p) {
            p + 2
        } else {
            p + 1
        },
{
}

/// Skipping moves forward and stays within the text. Where it stops, a
/// token starts: no blank, no comment and nothing more to skip.
pub proof fn lemma_skip_end(s: Seq<u8>, i: int)
    requires
        0 <= i <= s.len(),
    ensures
        i <= skip_end(s, i) <= s.len(),
        skip_end(s, i) < s.len() ==> !blank(s[skip_end(s, i)]) && !comment_at(s, skip_end(s, i)),
        skip_end(s, skip_end(s, i)) == skip_end(s, i),
    decreases s.len() - i,
{
    if i < s.len() {
        if blank(s[i]) {
            lemma_skip_end(s, i + 1);
        } else if comment_at(s, i) {
            lemma_run_end(s, i + 2, |c: u8| c != '\n' as u8);
            lemma_skip_end(s, line_end(s, i + 2));
        }
    }
}

/// Every token takes at least one byte and ends within the text, but for
/// the empty one at the end of the text, which alone is `Eof`.
pub proof fn lemma_token_progress(s: Seq<u8>, p: int)
    requires
        0 <= p <= s.len(),
    ensures
        p < s.len() ==> p < token_end(s, p) <= s.len(),
        p == s.len() ==> token_end(s, p) == p,
        token_kind(s, p) == TokenType::Eof <==> p == s.len(),
{
    if p < s.len() {
        lemma_run_end(s, p + 1, |c: u8| c != '"' as u8);
        lemma_run_end(s, p, |c: u8| letter(c) || digit(c));
        if digit(s[p]) {
            lemma_number_span(s, p);
        }
        if letter(s[p]) {
            lemma_keyword_initials(s.subrange(p, word_end(s, p)));
        }
    }
}

/// At the end of the text scanning stays where it is: there is nothing to
/// skip, and the token there is `Eof`, which takes no byte.
pub proof fn lemma_eof_repeats(s: Seq<u8>)
    ensures
        skip_end(s, s.len() as int) == s.len(),
        token_kind(s, s.len() as int) == TokenType::Eof,
        token_end(s, s.len() as int) == s.len(),
{
}

/// A number is made of digits and at most one dot, and is not empty.
pub proof fn lemma_number_span(s: Seq<u8>, p: int)
    requires
        0 <= p < s.len(),
        digit(s[p]),
    ensures
        p < number_end(s, p) <= s.len(),
        forall|k: int|
            p <= k < number_end(s, p) ==> digit(#[trigger] s[k]) || s[k] == '.' as u8,
        digit(s[number_end(s, p) - 1]),
{
    let e = digits_end(s, p);
    lemma_run_end(s, p, |c: u8| digit(c));
    assert(e > p);
    if e + 1 < s.len() && s[e] == '.' as u8 && digit(s[e + 1]) {
        lemma_run_end(s, e + 1, |c: u8| digit(c));
        assert(digits_end(s, e + 1) > e + 1);
    }
}

/// Newlines add up over adjoining stretches of the text.
pub proof fn lemma_newlines_split(s: Seq<u8>, from: int, mid: int, to: int)
    requires
        0 <= from <= mid <= to <= s.len(),
    ensures
        newlines(s, from, to) == newlines(s, from, mid) + newlines(s, mid, to),
    decreases to - mid,
{
    if mid < to {
        lemma_newlines_split(s, from, mid, to - 1);
    }
}

/// A stretch without a newline counts none.
pub proof fn lemma_newlines_none(s: Seq<u8>, from: int, to: int)
    requires
        0 <= from <= to <= s.len(),
        forall|k: int| from <= k < to ==> #[trigger] s[k] != '\n' as u8,
    ensures
        newlines(s, from, to) == 0,
    decreases to - from,
{
    if from < to {
        lemma_newlines_none(s, from, to - 1);
    }
}

} // verus!

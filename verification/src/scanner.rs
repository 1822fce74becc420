//! The scanner: a cursor over a source text that hands out one token per
//! call.
use crate::encoding::{
    ascii, lemma_boundary_after_ascii, lemma_boundary_before_ascii, lemma_boundary_in_prefix,
};
use crate::grammar::{
    comment_at, digit, digits_end, error_message, keyword, lemma_keyword_initials,
    lemma_keyword_tails, lemma_newlines_none, lemma_newlines_split, lemma_number_span,
    lemma_run_end, lemma_token_progress, letter, line_end, newlines, number_end, quote_pos,
    skip_end, tail_is, token_end, token_kind, word_end,
};
use vstd::prelude::*;
use vstd::string::StringSliceAdditionalSpecFns;
use vstd::utf8::{encode_utf8_valid_utf8, is_char_boundary, is_char_boundary_start_end_of_seq};

verus! {

/// A cursor over a source text. `start` is where the token being scanned
/// begins, `current` is the next byte to read, and `line` is the line that
/// scanning has reached, counted from 1. The lines of a string that is
/// never closed are not counted.
pub struct Scanner<'source> {
    pub source: &'source str,
    pub start: usize,
    pub current: usize,
    pub line: usize,
}

/// One token: its kind, the piece of source text it was scanned from, and
/// the line it was found on. The text of an `Error` token is a message
/// instead.
#[derive(Debug)]
pub struct Token<'source> {
    pub kind: TokenType,
    pub lexeme: &'source str,
    pub line: usize,
}

impl<'source> Token<'source> {
    pub fn new(kind: TokenType, lexeme: &'source str, line: usize) -> (token: Self)
        ensures
            token.kind == kind,
            token.lexeme == lexeme,
            token.line == line,
    {
        Self { kind, lexeme, line }
    }
}

pub fn is_digit(c: u8) -> (r: bool)
    ensures
        r == digit(c),
{
    c >= '0' as u8 && c <= '9' as u8
}

pub fn is_alpha(c: u8) -> (r: bool)
    ensures
        r == letter(c),
{
    (c >= 'a' as u8 && c <= 'z' as u8) || (c >= 'A' as u8 && c <= 'Z' as u8) || c == '_' as u8
}

impl<'source> Scanner<'source> {
    /// The bytes of the source text.
    pub open spec fn bytes(&self) -> Seq<u8> {
        self.source.spec_bytes()
    }

    /// The cursor lies within the text, the token under way ends where the
    /// cursor is, lines are counted from 1, and the line counter has room
    /// for as many lines as bytes are left to read.
    pub open spec fn wf(&self) -> bool {
        &&& self.start <= self.current <= self.bytes().len()
        &&& 1 <= self.line
        &&& self.line + (self.bytes().len() - self.current) <= usize::MAX
    }

    /// The byte under the cursor, or 0 at the end of the text.
    pub open spec fn next_byte(&self) -> u8 {
        if self.current < self.bytes().len() {
            self.bytes()[self.current as int]
        } else {
            0
        }
    }

    pub fn new(source: &'source str) -> (scanner: Self)
        requires
            source.spec_bytes().len() < usize::MAX,
        ensures
            scanner.source == source,
            scanner.start == 0,
            scanner.current == 0,
            scanner.line == 1,
            scanner.wf(),
    {
        Self { source, start: 0, current: 0, line: 1 }
    }

    /// Scans the next token. Blanks and comments before it are skipped; at
    /// the end of the text every call returns `Eof` again.
    ///
    /// What cannot be scanned comes back as an `Error` token that carries a
    /// message in place of its text: a byte that starts no token, which is
    /// passed over, or a string that the text ends before closing, which
    /// is reported on the line where it opens.
    pub fn scan_token(&mut self) -> (token: Token<'source>)
        requires
            old(self).wf(),
        ensures
            final(self).source == old(self).source,
            final(self).start == skip_end(old(self).bytes(), old(self).current as int),
            final(self).current == token_end(old(self).bytes(), final(self).start as int),
            token.kind == token_kind(old(self).bytes(), final(self).start as int),
            token.kind != TokenType::Error ==> token.lexeme.spec_bytes() == old(
                self,
            ).bytes().subrange(final(self).start as int, final(self).current as int),
            token.kind == TokenType::Error ==> token.lexeme@ == error_message(
                old(self).bytes(),
                final(self).start as int,
            ),
            old(self).current <= final(self).start,
            token.kind == TokenType::Eof <==> final(self).start == old(self).bytes().len(),
            token.kind != TokenType::Eof ==> final(self).start < final(self).current,
            token.line == final(self).line,
            final(self).line == old(self).line + newlines(
                old(self).bytes(),
                old(self).current as int,
                if token.kind == TokenType::Error {
                    final(self).start as int
                } else {
                    final(self).current as int
                },
            ),
            final(self).wf(),
    {
        let ghost s = self.bytes();
        let ghost from = self.current as int;
        self.skip_whitespace();

        self.start = self.current;
        let ghost p = self.start as int;
        proof {
            lemma_token_progress(s, p);
        }

        if self.is_at_end() {
            proof {
                self.lemma_sliceable();
            }
            return self.make_token(TokenType::Eof);
        }
        let c: u8 = self.advance();
        proof {
            lemma_newlines_split(s, from, p, p + 1);
            if ascii(c) {
                self.lemma_sliceable();
            }
        }

        if c == '(' as u8 {
            self.make_token(TokenType::LeftParen)
        } else if c == ')' as u8 {
            self.make_token(TokenType::RightParen)
        } else if c == '{' as u8 {
            self.make_token(TokenType::LeftBrace)
        } else if c == '}' as u8 {
            self.make_token(TokenType::RightBrace)
        } else if c == ';' as u8 {
            self.make_token(TokenType::Semicolon)
        } else if c == ',' as u8 {
            self.make_token(TokenType::Comma)
        } else if c == '.' as u8 {
            self.make_token(TokenType::Dot)
        } else if c == '-' as u8 {
            self.make_token(TokenType::Minus)
        } else if c == '+' as u8 {
            self.make_token(TokenType::Plus)
        } else if c == '/' as u8 {
            self.make_token(TokenType::Slash)
        } else if c == '*' as u8 {
            self.make_token(TokenType::Star)
        } else if c == '!' as u8 {
            let kind: TokenType = if self.matches('=' as u8) {
                TokenType::BangEqual
            } else {
                TokenType::Bang
            };
            proof {
                self.lemma_sliceable();
                lemma_newlines_split(s, from, p + 1, self.current as int);
            }
            self.make_token(kind)
        } else if c == '=' as u8 {
            let kind: TokenType = if self.matches('=' as u8) {
                TokenType::EqualEqual
            } else {
                TokenType::Equal
            };
            proof {
                self.lemma_sliceable();
                lemma_newlines_split(s, from, p + 1, self.current as int);
            }
            self.make_token(kind)
        } else if c == '<' as u8 {
            let kind: TokenType = if self.matches('=' as u8) {
                TokenType::LessEqual
            } else {
                TokenType::Less
            };
            proof {
                self.lemma_sliceable();
                lemma_newlines_split(s, from, p + 1, self.current as int);
            }
            self.make_token(kind)
        } else if c == '>' as u8 {
            let kind: TokenType = if self.matches('=' as u8) {
                TokenType::GreaterEqual
            } else {
                TokenType::Greater
            };
            proof {
                self.lemma_sliceable();
                lemma_newlines_split(s, from, p + 1, self.current as int);
            }
            self.make_token(kind)
        } else if c == '"' as u8 {
            let token = self.string();
            proof {
                lemma_newlines_split(s, from, p + 1, self.current as int);
            }
            token
        } else if is_digit(c) {
            let token = self.number();
            proof {
                lemma_number_span(s, p);
                lemma_newlines_none(s, p, self.current as int);
                lemma_newlines_split(s, from, p, self.current as int);
            }
            token
        } else if is_alpha(c) {
            let token = self.identifier();
            proof {
                lemma_run_end(s, p, |c: u8| letter(c) || digit(c));
                lemma_newlines_none(s, p, self.current as int);
                lemma_newlines_split(s, from, p, self.current as int);
            }
            token
        } else {
            self.error_token("Unexpected character")
        }
    }

    pub fn matches(&mut self, expected: u8) -> (matched: bool)
        requires
            old(self).wf(),
        ensures
            matched == (old(self).current < old(self).bytes().len() && old(self).next_byte()
                == expected),
            final(self).current == old(self).current + if matched { 1int } else { 0int },
            final(self).source == old(self).source,
            final(self).start == old(self).start,
            final(self).line == old(self).line,
            final(self).wf(),
    {
        if self.is_at_end() || self.peek() != expected {
            false
        } else {
            self.current += 1;
            true
        }
    }

    /// Scans the rest of a string literal whose opening quote was just read.
    /// A literal that the text ends before closing becomes an error token,
    /// and the newlines inside it are then not counted.
    fn string(&mut self) -> (token: Token<'source>)
        requires
            old(self).wf(),
            old(self).current == old(self).start + 1,
            old(self).bytes()[old(self).start as int] == '"' as u8,
        ensures
            final(self).current == token_end(old(self).bytes(), old(self).start as int),
            token.kind == token_kind(old(self).bytes(), old(self).start as int),
            token.kind == TokenType::String || token.kind == TokenType::Error,
            token.kind == TokenType::String ==> token.lexeme.spec_bytes() == old(
                self,
            ).bytes().subrange(old(self).start as int, final(self).current as int)
                && final(self).line == old(self).line + newlines(
                old(self).bytes(),
                old(self).current as int,
                final(self).current as int,
            ),
            token.kind == TokenType::Error ==> token.lexeme@ == "Unterminated string"@
                && final(self).line == old(self).line,
            token.line == final(self).line,
            old(self).current <= final(self).current,
            final(self).source == old(self).source,
            final(self).start == old(self).start,
            final(self).wf(),
    {
        let ghost s = self.bytes();
        let ghost from = self.current as int;
        let opening_line: usize = self.line;
        while self.peek() != '"' as u8 && !self.is_at_end()
            invariant
                self.wf(),
                self.source == old(self).source,
                self.start == old(self).start,
                s == self.bytes(),
                from == old(self).current,
                from <= self.current,
                quote_pos(s, self.current as int) == quote_pos(s, from),
                self.line == old(self).line + newlines(s, from, self.current as int),
                opening_line == old(self).line,
            decreases s.len() - self.current,
        {
            let newline: bool = self.peek() == '\n' as u8;
            self.advance();
            if newline {
                self.line += 1;
            }
        }
        proof {
            lemma_run_end(s, self.current as int, |c: u8| c != '"' as u8);
        }
        if self.is_at_end() {
            self.line = opening_line;
            self.error_token("Unterminated string")
        } else {
            self.advance();
            proof {
                self.lemma_sliceable();
            }
            self.make_token(TokenType::String)
        }
    }

    /// Scans the rest of a number whose first digit was just read.
    fn number(&mut self) -> (token: Token<'source>)
        requires
            old(self).wf(),
            old(self).current == old(self).start + 1,
            digit(old(self).bytes()[old(self).start as int]),
        ensures
            final(self).current == number_end(old(self).bytes(), old(self).start as int),
            token.kind == TokenType::Number,
            token.lexeme.spec_bytes() == old(self).bytes().subrange(
                old(self).start as int,
                final(self).current as int,
            ),
            token.line == old(self).line,
            final(self).line == old(self).line,
            final(self).source == old(self).source,
            final(self).start == old(self).start,
            final(self).wf(),
    {
        let ghost s = self.bytes();
        let ghost p = self.start as int;
        while is_digit(self.peek())
            invariant
                self.wf(),
                self.source == old(self).source,
                self.start == old(self).start,
                self.line == old(self).line,
                s == self.bytes(),
                p == self.start,
                p < self.current,
                digits_end(s, self.current as int) == digits_end(s, p),
                digit(s[self.current - 1]),
            decreases s.len() - self.current,
        {
            self.advance();
        }
        if self.peek() == '.' as u8 && is_digit(self.peek_next()) {
            self.advance();
            let ghost dot = self.current as int;
            while is_digit(self.peek())
                invariant
                    self.wf(),
                    self.source == old(self).source,
                    self.start == old(self).start,
                    self.line == old(self).line,
                    s == self.bytes(),
                    p == self.start,
                    p < dot <= self.current,
                    dot < s.len(),
                    digit(s[dot]),
                    digits_end(s, self.current as int) == digits_end(s, dot),
                    number_end(s, p) == digits_end(s, dot),
                    self.current > dot ==> digit(s[self.current - 1]),
                decreases s.len() - self.current,
            {
                self.advance();
            }
        }
        proof {
            self.lemma_sliceable();
        }
        self.make_token(TokenType::Number)
    }

    /// Scans the rest of a word whose first letter was just read, and tells
    /// a keyword from an identifier.
    fn identifier(&mut self) -> (token: Token<'source>)
        requires
            old(self).wf(),
            old(self).current == old(self).start + 1,
            letter(old(self).bytes()[old(self).start as int]),
        ensures
            final(self).current == word_end(old(self).bytes(), old(self).start as int),
            token.kind == token_kind(old(self).bytes(), old(self).start as int),
            token.lexeme.spec_bytes() == old(self).bytes().subrange(
                old(self).start as int,
                final(self).current as int,
            ),
            token.line == old(self).line,
            final(self).line == old(self).line,
            final(self).source == old(self).source,
            final(self).start == old(self).start,
            final(self).wf(),
    {
        let ghost s = self.bytes();
        let ghost p = self.start as int;
        while is_alpha(self.peek()) || is_digit(self.peek())
            invariant
                self.wf(),
                self.source == old(self).source,
                self.start == old(self).start,
                self.line == old(self).line,
                s == self.bytes(),
                p == self.start,
                p < self.current,
                letter(s[p]),
                word_end(s, self.current as int) == word_end(s, p),
                letter(s[self.current - 1]) || digit(s[self.current - 1]),
            decreases s.len() - self.current,
        {
            self.advance();
        }
        proof {
            self.lemma_sliceable();
        }
        let kind: TokenType = match self.keyword_type() {
            Some(kind) => kind,
            None => TokenType::Identifier,
        };
        self.make_token(kind)
    }

    /// Tells which keyword the word under way spells, if any, by its first
    /// letter or two and then by the rest of it.
    fn keyword_type(&self) -> (found: Option<TokenType>)
        requires
            self.wf(),
            self.start < self.current,
        ensures
            found == keyword(self.bytes().subrange(self.start as int, self.current as int)),
    {
        let ghost s = self.bytes();
        let ghost p = self.start as int;
        let ghost e = self.current as int;
        let ghost word = s.subrange(p, e);
        proof {
            lemma_keyword_initials(word);
            lemma_keyword_tails(s, p, e);
            assert(word[0] == s[p]);
            if word.len() > 1 {
                assert(word[1] == s[p + 1]);
            }
        }
        let c: u8 = self.char_at(self.start);
        if c == 'a' as u8 {
            self.check_keyword(1, "nd", TokenType::And)
        } else if c == 'c' as u8 {
            self.check_keyword(1, "lass", TokenType::Class)
        } else if c == 'e' as u8 {
            self.check_keyword(1, "lse", TokenType::Else)
        } else if c == 'f' as u8 && self.current - self.start > 1 {
            let d: u8 = self.char_at(self.start + 1);
            if d == 'a' as u8 {
                self.check_keyword(2, "lse", TokenType::False)
            } else if d == 'o' as u8 {
                self.check_keyword(2, "r", TokenType::For)
            } else if d == 'u' as u8 {
                self.check_keyword(2, "n", TokenType::Fun)
            } else {
                None
            }
        } else if c == 'i' as u8 {
            self.check_keyword(1, "f", TokenType::If)
        } else if c == 'n' as u8 {
            self.check_keyword(1, "il", TokenType::Nil)
        } else if c == 'o' as u8 {
            self.check_keyword(1, "r", TokenType::Or)
        } else if c == 'p' as u8 {
            self.check_keyword(1, "rint", TokenType::Print)
        } else if c == 'r' as u8 {
            self.check_keyword(1, "eturn", TokenType::Return)
        } else if c == 's' as u8 {
            self.check_keyword(1, "uper", TokenType::Super)
        } else if c == 't' as u8 && self.current - self.start > 1 {
            let d: u8 = self.char_at(self.start + 1);
            if d == 'h' as u8 {
                self.check_keyword(2, "is", TokenType::This)
            } else if d == 'r' as u8 {
                self.check_keyword(2, "ue", TokenType::True)
            } else {
                None
            }
        } else if c == 'v' as u8 {
            self.check_keyword(1, "ar", TokenType::Var)
        } else if c == 'w' as u8 {
            self.check_keyword(1, "hile", TokenType::While)
        } else {
            None
        }
    }

    /// Tells whether the word under way, `keyword_start` bytes in, goes on
    /// with exactly `keyword_rest` and then ends.
    fn check_keyword(&self, keyword_start: usize, keyword_rest: &str, kind: TokenType) -> (found:
        Option<TokenType>)
        requires
            self.wf(),
        ensures
            found == if tail_is(
                self.bytes(),
                self.start as int,
                self.current as int,
                keyword_start as int,
                keyword_rest,
            ) {
                Some(kind)
            } else {
                None
            },
    {
        let rest = keyword_rest.as_bytes();
        let scan_len: usize = self.current - self.start;
        if scan_len < keyword_start || scan_len - keyword_start != rest.len() {
            return None;
        }
        let scan_start: usize = self.start + keyword_start;
        let ghost tail = self.bytes().subrange(scan_start as int, self.current as int);
        let mut i: usize = 0;
        while i < rest.len()
            invariant
                self.wf(),
                scan_start + rest.len() == self.current,
                rest@ == keyword_rest.spec_bytes(),
                tail == self.bytes().subrange(scan_start as int, self.current as int),
                i <= rest.len(),
                forall|k: int| 0 <= k < i ==> tail[k] == rest@[k],
            decreases rest.len() - i,
        {
            if self.char_at(scan_start + i) != rest[i] {
                assert(tail[i as int] != rest@[i as int]);
                return None;
            }
            i += 1;
        }
        assert(tail =~= rest@);
        Some(kind)
    }

    pub fn skip_whitespace(&mut self)
        requires
            old(self).wf(),
        ensures
            final(self).current == skip_end(old(self).bytes(), old(self).current as int),
            old(self).current <= final(self).current,
            final(self).line == old(self).line + newlines(
                old(self).bytes(),
                old(self).current as int,
                final(self).current as int,
            ),
            final(self).source == old(self).source,
            final(self).start == old(self).start,
            final(self).wf(),
    {
        let ghost s = self.bytes();
        let ghost from = self.current as int;
        while !self.is_at_end()
            invariant
                self.wf(),
                self.source == old(self).source,
                self.start == old(self).start,
                s == self.bytes(),
                from == old(self).current,
                from <= self.current,
                skip_end(s, self.current as int) == skip_end(s, from),
                self.line == old(self).line + newlines(s, from, self.current as int),
            ensures
                self.current == skip_end(s, from),
                from <= self.current,
            decreases s.len() - self.current,
        {
            let c: u8 = self.peek();
            if c == ' ' as u8 || c == '\r' as u8 || c == '\t' as u8 {
                self.advance();
            } else if c == '\n' as u8 {
                self.advance();
                self.line += 1;
            } else if c == '/' as u8 && self.peek_next() == '/' as u8 {
                let ghost opened = self.current as int;
                while self.peek() != '\n' as u8 && !self.is_at_end()
                    invariant
                        self.wf(),
                        self.source == old(self).source,
                        self.start == old(self).start,
                        s == self.bytes(),
                        from == old(self).current,
                        from <= opened <= self.current,
                        comment_at(s, opened),
                        line_end(s, opened) == line_end(s, self.current as int),
                        forall|k: int| opened <= k < self.current ==> #[trigger] s[k] != '\n' as u8,
                        self.line == old(self).line + newlines(s, from, opened),
                    decreases s.len() - self.current,
                {
                    self.advance();
                }
                proof {
                    lemma_newlines_none(s, opened, self.current as int);
                    lemma_newlines_split(s, from, opened, self.current as int);
                    assert(line_end(s, opened) == line_end(s, opened + 2)) by {
                        assert(line_end(s, opened) == line_end(s, opened + 1));
                    }
                    lemma_run_end(s, self.current as int, |c: u8| c != '\n' as u8);
                }
            } else {
                break;
            }
        }
    }

    pub fn char_at(&self, index: usize) -> (c: u8)
        requires
            index < self.bytes().len(),
        ensures
            c == self.bytes()[index as int],
    {
        self.source.as_bytes()[index]
    }

    pub fn peek(&self) -> (c: u8)
        ensures
            c == self.next_byte(),
            self.bytes().len() <= usize::MAX,
    {
        if self.is_at_end() {
            0
        } else {
            self.char_at(self.current)
        }
    }

    pub fn peek_next(&self) -> (c: u8)
        ensures
            c == if self.current + 1 < self.bytes().len() {
                self.bytes()[self.current + 1]
            } else {
                0
            },
    {
        let len: usize = self.source.as_bytes().len();
        if self.current >= len || self.current + 1 >= len {
            0
        } else {
            self.char_at(self.current + 1)
        }
    }

    pub fn advance(&mut self) -> (c: u8)
        requires
            old(self).wf(),
            old(self).current < old(self).bytes().len(),
        ensures
            c == old(self).bytes()[old(self).current as int],
            final(self).current == old(self).current + 1,
            final(self).source == old(self).source,
            final(self).start == old(self).start,
            final(self).line == old(self).line,
            final(self).wf(),
    {
        let c: u8 = self.peek();
        self.current += 1;
        c
    }

    pub fn is_at_end(&self) -> (at_end: bool)
        ensures
            at_end == (self.current >= self.bytes().len()),
            self.bytes().len() <= usize::MAX,
    {
        self.current >= self.source.as_bytes().len()
    }

    /// Whether the token under way can be cut out of the source: it begins
    /// and ends between characters.
    #[verifier::opaque]
    pub open spec fn sliceable(&self) -> bool {
        &&& is_char_boundary(self.bytes(), self.start as int)
        &&& is_char_boundary(self.bytes(), self.current as int)
    }

    /// A token that begins on an ASCII byte, or at the end of the text, and
    /// that ends after an ASCII byte, or at either end of the text, can be
    /// cut out of the source.
    pub proof fn lemma_sliceable(&self)
        requires
            self.wf(),
            self.start < self.bytes().len() ==> ascii(self.bytes()[self.start as int]),
            0 < self.current < self.bytes().len() ==> ascii(self.bytes()[self.current - 1]),
        ensures
            self.sliceable(),
    {
        reveal(Scanner::sliceable);
        let s = self.bytes();
        encode_utf8_valid_utf8(self.source@);
        is_char_boundary_start_end_of_seq(s);
        if self.start < s.len() {
            lemma_boundary_before_ascii(s, self.start as int);
        }
        if 0 < self.current < s.len() {
            lemma_boundary_after_ascii(s, self.current - 1);
        }
    }

    pub fn make_token(&self, kind: TokenType) -> (token: Token<'source>)
        requires
            self.wf(),
            self.sliceable(),
        ensures
            token.kind == kind,
            token.lexeme.spec_bytes() == self.bytes().subrange(
                self.start as int,
                self.current as int,
            ),
            token.line == self.line,
    {
        Token::new(kind, self.lexeme(), self.line)
    }

    pub fn lexeme(&self) -> (text: &'source str)
        requires
            self.wf(),
            self.sliceable(),
        ensures
            text.spec_bytes() == self.bytes().subrange(self.start as int, self.current as int),
    {
        proof {
            reveal(Scanner::sliceable);
            encode_utf8_valid_utf8(self.source@);
            lemma_boundary_in_prefix(self.bytes(), self.start as int, self.current as int);
        }
        let (head, _) = self.source.split_at(self.current);
        let (_, text) = head.split_at(self.start);
        assert(text.spec_bytes() =~= self.bytes().subrange(self.start as int, self.current as int));
        text
    }

    fn error_token(&self, message: &'static str) -> (token: Token<'static>)
        ensures
            token.kind == TokenType::Error,
            token.lexeme == message,
            token.line == self.line,
    {
        Token::new(TokenType::Error, message, self.line)
    }
}

/// The kind of a token.
#[derive(PartialEq, Eq, Structural, Debug, Clone, Copy)]
pub enum TokenType {
    // Single-character tokens.
    LeftParen,
    RightParen,
    LeftBrace,
    RightBrace,
    Comma,
    Dot,
    Minus,
    Plus,
    Semicolon,
    Slash,
    Star,
    // One or two character tokens.
    Bang,
    BangEqual,
    Equal,
    EqualEqual,
    Greater,
    GreaterEqual,
    Less,
    LessEqual,
    // Literals.
    Identifier,
    String,
    Number,
    // Keywords.
    And,
    Class,
    Else,
    False,
    For,
    Fun,
    If,
    Nil,
    Or,
    Print,
    Return,
    Super,
    This,
    True,
    Var,
    While,
    Error,
    Eof,
}

} // verus!

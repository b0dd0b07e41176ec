//! The lexer: scans a line of source text into tokens, one at a time.
use vstd::prelude::*;
use crate::token::{SpecToken, Token};

verus! {

/// A lexical fault.
#[derive(Clone, Copy, Debug, PartialEq, Eq, Structural)]
pub enum LexError {
    /// A character that starts no token.
    InvalidCharacter(char),
    /// A decimal literal whose value does not fit in an `i64`.
    NumberTooLarge,
}

/// Whether `c` has Unicode's White_Space property.
pub uninterp spec fn white_space(c: char) -> bool;

/// Whether `c` has Unicode's Alphabetic property.
pub uninterp spec fn alphabetic(c: char) -> bool;

/// Relies on `char::is_whitespace`: true exactly for White_Space characters.
#[verifier::external_body]
fn char_is_whitespace(c: char) -> (r: bool)
    ensures
        r == white_space(c),
{
    c.is_whitespace()
}

/// Relies on `char::is_alphabetic`: true exactly for Alphabetic characters.
#[verifier::external_body]
fn char_is_alphabetic(c: char) -> (r: bool)
    ensures
        r == alphabetic(c),
{
    c.is_alphabetic()
}

pub open spec fn is_digit(c: char) -> bool {
    '0' <= c && c <= '9'
}

pub open spec fn digit_value(c: char) -> int {
    c as int - '0' as int
}

/// The value of a sequence of decimal digits, most significant first.
pub open spec fn decimal_value(d: Seq<char>) -> int
    decreases d.len(),
{
    if d.len() == 0 {
        0
    } else {
        decimal_value(d.drop_last()) * 10 + digit_value(d.last())
    }
}

/// Whitespace other than a newline is skipped between tokens; a digit,
/// tested first, never is.
pub open spec fn skipped(c: char) -> bool {
    c != '\n' && !is_digit(c) && white_space(c)
}

/// The first position at or after `p` that holds no skipped whitespace.
pub open spec fn whitespace_end(s: Seq<char>, p: int) -> int
    decreases s.len() - p,
{
    if 0 <= p < s.len() && skipped(s[p]) {
        whitespace_end(s, p + 1)
    } else {
        p
    }
}

/// The end of the run of digits that starts at `p`.
pub open spec fn digits_end(s: Seq<char>, p: int) -> int
    decreases s.len() - p,
{
    if 0 <= p < s.len() && is_digit(s[p]) {
        digits_end(s, p + 1)
    } else {
        p
    }
}

/// The end of the run of alphabetic characters that starts at `p`.
pub open spec fn word_end(s: Seq<char>, p: int) -> int
    decreases s.len() - p,
{
    if 0 <= p < s.len() && alphabetic(s[p]) {
        word_end(s, p + 1)
    } else {
        p
    }
}

/// The token of a one-character symbol.
pub open spec fn symbol_token(c: char) -> Option<SpecToken> {
    if c == '+' {
        Some(SpecToken::Plus)
    } else if c == '-' {
        Some(SpecToken::Minus)
    } else if c == '*' {
        Some(SpecToken::Asterisk)
    } else if c == '/' {
        Some(SpecToken::Slash)
    } else if c == '(' {
        Some(SpecToken::LParen)
    } else if c == ')' {
        Some(SpecToken::RParen)
    } else if c == '>' {
        Some(SpecToken::GreaterThan)
    } else if c == '<' {
        Some(SpecToken::LessThan)
    } else if c == ';' {
        Some(SpecToken::SemiColon)
    } else if c == '{' {
        Some(SpecToken::LBrace)
    } else if c == '}' {
        Some(SpecToken::RBrace)
    } else if c == '=' {
        Some(SpecToken::Assign)
    } else {
        None
    }
}

/// A keyword, or else an identifier.
pub open spec fn word_token(w: Seq<char>) -> SpecToken {
    if w == seq!['i', 'f'] {
        SpecToken::If
    } else if w == seq!['t', 'h', 'e', 'n'] {
        SpecToken::Then
    } else if w == seq!['e', 'l', 's', 'e'] {
        SpecToken::Else
    } else if w == seq!['p', 'r', 'i', 'n', 't'] {
        SpecToken::Print
    } else if w == seq!['w', 'h', 'i', 'l', 'e'] {
        SpecToken::While
    } else {
        SpecToken::Ident(w)
    }
}

/// The next token of `s` from position `p`, and the position after it.
/// Past the end, and at a newline, the token is `EOF`.
pub open spec fn spec_next_token(s: Seq<char>, p: int) -> (Result<SpecToken, LexError>, int) {
    let q = whitespace_end(s, p);
    if q >= s.len() {
        (Ok(SpecToken::EOF), q)
    } else if s[q] == '\n' {
        (Ok(SpecToken::EOF), q + 1)
    } else if is_digit(s[q]) {
        let e = digits_end(s, q);
        let v = decimal_value(s.subrange(q, e));
        if v <= i64::MAX {
            (Ok(SpecToken::Number(v as i64)), e)
        } else {
            (Err(LexError::NumberTooLarge), e)
        }
    } else if symbol_token(s[q]) is Some {
        (Ok(symbol_token(s[q])->0), q + 1)
    } else if alphabetic(s[q]) {
        let e = word_end(s, q);
        (Ok(word_token(s.subrange(q, e))), e)
    } else {
        (Err(LexError::InvalidCharacter(s[q])), q)
    }
}

pub open spec fn token_result_view(r: Result<Token, LexError>) -> Result<SpecToken, LexError> {
    match r {
        Ok(t) => Ok(t@),
        Err(e) => Err(e),
    }
}

pub proof fn lemma_whitespace_end(s: Seq<char>, p: int)
    requires
        0 <= p <= s.len(),
    ensures
        p <= whitespace_end(s, p) <= s.len(),
    decreases s.len() - p,
{
    if p < s.len() && skipped(s[p]) {
        lemma_whitespace_end(s, p + 1);
    }
}

pub proof fn lemma_digits_end(s: Seq<char>, p: int)
    requires
        0 <= p <= s.len(),
    ensures
        p <= digits_end(s, p) <= s.len(),
        forall|i: int| p <= i < digits_end(s, p) ==> is_digit(#[trigger] s[i]),
        digits_end(s, p) < s.len() ==> !is_digit(s[digits_end(s, p)]),
    decreases s.len() - p,
{
    if p < s.len() && is_digit(s[p]) {
        lemma_digits_end(s, p + 1);
    }
}

pub proof fn lemma_word_end(s: Seq<char>, p: int)
    requires
        0 <= p <= s.len(),
    ensures
        p <= word_end(s, p) <= s.len(),
    decreases s.len() - p,
{
    if p < s.len() && alphabetic(s[p]) {
        lemma_word_end(s, p + 1);
    }
}

/// A value of digits is at least that of any of its prefixes, and not negative.
pub proof fn lemma_decimal_prefix(d: Seq<char>, k: int)
    requires
        0 <= k <= d.len(),
        forall|i: int| 0 <= i < d.len() ==> is_digit(#[trigger] d[i]),
    ensures
        0 <= decimal_value(d.subrange(0, k)) <= decimal_value(d),
    decreases d.len(),
{
    if d.len() == 0 {
        assert(d.subrange(0, k) =~= d);
    } else if k == d.len() {
        assert(d.subrange(0, k) =~= d);
        lemma_decimal_prefix(d.drop_last(), 0);
    } else {
        let e = d.drop_last();
        assert(e.subrange(0, k) =~= d.subrange(0, k));
        lemma_decimal_prefix(e, k);
        lemma_decimal_prefix(e, e.len() as int);
        assert(e.subrange(0, e.len() as int) =~= e);
    }
}

pub open spec fn digit_char(d: int) -> char {
    seq!['0', '1', '2', '3', '4', '5', '6', '7', '8', '9'][d]
}

/// The decimal numeral of `n`, without leading zeros.
pub open spec fn decimal(n: nat) -> Seq<char>
    decreases n,
{
    if n < 10 {
        seq![digit_char(n as int)]
    } else {
        decimal(n / 10).push(digit_char((n % 10) as int))
    }
}

proof fn lemma_digit_char(d: int)
    requires
        0 <= d < 10,
    ensures
        is_digit(digit_char(d)),
        digit_value(digit_char(d)) == d,
{
}

proof fn lemma_decimal(n: nat)
    ensures
        decimal(n).len() > 0,
        forall|i: int| 0 <= i < decimal(n).len() ==> is_digit(#[trigger] decimal(n)[i]),
        decimal_value(decimal(n)) == n,
    decreases n,
{
    if n < 10 {
        lemma_digit_char(n as int);
        assert(seq![digit_char(n as int)].drop_last() =~= Seq::<char>::empty());
        assert(decimal_value(Seq::<char>::empty()) == 0);
    } else {
        lemma_decimal(n / 10);
        lemma_digit_char((n % 10) as int);
        let d = decimal(n / 10);
        assert(d.push(digit_char((n % 10) as int)).drop_last() =~= d);
        assert((n / 10) * 10 + n % 10 == n) by (nonlinear_arith);
        assert forall|i: int| 0 <= i < decimal(n).len() implies is_digit(#[trigger] decimal(n)[i]) by {
            if i < d.len() {
                assert(decimal(n)[i] == d[i]);
            }
        }
    }
}

proof fn lemma_digits_to_end(s: Seq<char>, p: int)
    requires
        0 <= p <= s.len(),
        forall|i: int| p <= i < s.len() ==> is_digit(#[trigger] s[i]),
    ensures
        digits_end(s, p) == s.len(),
    decreases s.len() - p,
{
    if p < s.len() {
        lemma_digits_to_end(s, p + 1);
    }
}

/// Lexing the numeral of any `n` that fits in an `i64` gives back the one
/// token `Number(n)`, and consumes the whole numeral.
pub proof fn law_integer_literal_round_trip(n: nat)
    requires
        n <= i64::MAX,
    ensures
        spec_next_token(decimal(n), 0) == (
        Ok::<SpecToken, LexError>(SpecToken::Number(n as i64)),
        decimal(n).len() as int,
    ),
{
    let s = decimal(n);
    lemma_decimal(n);
    assert(is_digit(s[0]));
    assert(whitespace_end(s, 0) == 0);
    lemma_digits_to_end(s, 0);
    assert(s.subrange(0, s.len() as int) =~= s);
}

/// A scan over a line of characters, with one position of progress.
pub struct Lexer {
    input: String,
    chars: Vec<char>,
    position: usize,
}

impl Lexer {
    pub closed spec fn wf(&self) -> bool {
        &&& self.chars@ == self.input@
        &&& self.position <= self.chars@.len()
    }

    /// The characters being scanned.
    pub closed spec fn text(&self) -> Seq<char> {
        self.chars@
    }

    /// The position of the next character to scan.
    pub closed spec fn pos(&self) -> int {
        self.position as int
    }

    pub proof fn lemma_wf(&self)
        requires
            self.wf(),
        ensures
            0 <= self.pos() <= self.text().len(),
    {
    }

    /// A lexer at the start of `input`.
    pub fn new(input: &str) -> (r: Lexer)
        ensures
            r.wf(),
            r.text() == input@,
            r.pos() == 0,
    {
        let n = input.unicode_len();
        let mut chars: Vec<char> = Vec::new();
        let mut i: usize = 0;
        while i < n
            invariant
                n == input@.len(),
                i <= n,
                chars@ == input@.subrange(0, i as int),
            decreases n - i,
        {
            chars.push(input.get_char(i));
            i = i + 1;
        }
        assert(chars@ =~= input@);
        Lexer { input: String::from_str(input), chars, position: 0 }
    }

    /// Moves one character on, unless at the end.
    pub fn advance(&mut self)
        requires
            old(self).wf(),
        ensures
            final(self).wf(),
            final(self).text() == old(self).text(),
            final(self).pos() == if old(self).pos() < old(self).text().len() {
                old(self).pos() + 1
            } else {
                old(self).pos()
            },
    {
        if self.position < self.chars.len() {
            self.position = self.position + 1;
        }
    }

    /// Skips whitespace other than a newline.
    pub fn skip_whitespace(&mut self)
        requires
            old(self).wf(),
        ensures
            final(self).wf(),
            final(self).text() == old(self).text(),
            final(self).pos() == whitespace_end(old(self).text(), old(self).pos()),
    {
        while self.position < self.chars.len() && self.chars[self.position] != '\n' && !(
        '0' <= self.chars[self.position] && self.chars[self.position] <= '9')
            && char_is_whitespace(self.chars[self.position])
            invariant
                self.wf(),
                self.text() == old(self).text(),
                whitespace_end(self.text(), self.pos()) == whitespace_end(
                    old(self).text(),
                    old(self).pos(),
                ),
            decreases self.chars@.len() - self.position,
        {
            self.advance();
        }
    }

    /// Reads the run of digits at the current position as a decimal number.
    pub fn integer(&mut self) -> (r: Result<i64, LexError>)
        requires
            old(self).wf(),
        ensures
            final(self).wf(),
            final(self).text() == old(self).text(),
            ({
                let s = old(self).text();
                let e = digits_end(s, old(self).pos());
                let v = decimal_value(s.subrange(old(self).pos(), e));
                if v <= i64::MAX {
                    r == Ok::<i64, LexError>(v as i64) && final(self).pos() == e
                } else {
                    r == Err::<i64, LexError>(LexError::NumberTooLarge)
                }
            }),
    {
        let ghost s = self.text();
        let ghost start = self.pos();
        proof {
            lemma_digits_end(s, start);
        }
        let ghost e = digits_end(s, start);
        let mut result: i64 = 0;
        while self.position < self.chars.len() && '0' <= self.chars[self.position]
            && self.chars[self.position] <= '9'
            invariant
                self.wf(),
                self.text() == s,
                s == old(self).text(),
                start == old(self).pos(),
                start <= self.pos() <= e,
                e <= s.len(),
                e == digits_end(s, start),
                digits_end(s, self.pos()) == e,
                forall|i: int| start <= i < e ==> is_digit(#[trigger] s[i]),
                e < s.len() ==> !is_digit(s[e]),
                result as int == decimal_value(s.subrange(start, self.pos())),
            decreases self.chars@.len() - self.position,
        {
            let c = self.chars[self.position];
            let d = (c as u32 - '0' as u32) as i64;
            let ghost p = self.pos();
            proof {
                lemma_digits_end(s, p + 1);
                assert(p < e);
                assert(s.subrange(start, p + 1).drop_last() =~= s.subrange(start, p));
                let full = s.subrange(start, e);
                assert(full.subrange(0, p + 1 - start) =~= s.subrange(start, p + 1));
                assert forall|i: int| 0 <= i < full.len() implies is_digit(#[trigger] full[i]) by {
                    assert(full[i] == s[start + i]);
                }
                lemma_decimal_prefix(full, p + 1 - start);
            }
            let next = match result.checked_mul(10) {
                Some(m) => m.checked_add(d),
                None => None,
            };
            match next {
                Some(v) => {
                    result = v;
                },
                None => {
                    assert(s.subrange(start, p + 1).last() == c);
                    assert(d >= 0);
                    return Err(LexError::NumberTooLarge);
                },
            }
            self.advance();
        }
        Ok(result)
    }

    /// Reads the next token, moving past it.
    pub fn next_token(&mut self) -> (r: Result<Token, LexError>)
        requires
            old(self).wf(),
        ensures
            final(self).wf(),
            final(self).text() == old(self).text(),
            token_result_view(r) == spec_next_token(old(self).text(), old(self).pos()).0,
            r is Ok ==> final(self).pos() == spec_next_token(old(self).text(), old(self).pos()).1,
    {
        proof {
            lemma_whitespace_end(self.text(), self.pos());
        }
        self.skip_whitespace();
        if self.position >= self.chars.len() {
            return Ok(Token::EOF);
        }
        let c = self.chars[self.position];
        if c == '\n' {
            self.advance();
            return Ok(Token::EOF);
        }
        if '0' <= c && c <= '9' {
            return match self.integer() {
                Ok(v) => Ok(Token::Number(v)),
                Err(e) => Err(e),
            };
        }
        let sym = if c == '+' {
            Some(Token::Plus)
        } else if c == '-' {
            Some(Token::Minus)
        } else if c == '*' {
            Some(Token::Asterisk)
        } else if c == '/' {
            Some(Token::Slash)
        } else if c == '(' {
            Some(Token::LParen)
        } else if c == ')' {
            Some(Token::RParen)
        } else if c == '>' {
            Some(Token::GreaterThan)
        } else if c == '<' {
            Some(Token::LessThan)
        } else if c == ';' {
            Some(Token::SemiColon)
        } else if c == '{' {
            Some(Token::LBrace)
        } else if c == '}' {
            Some(Token::RBrace)
        } else if c == '=' {
            Some(Token::Assign)
        } else {
            None
        };
        if let Some(t) = sym {
            self.advance();
            return Ok(t);
        }
        if char_is_alphabetic(c) {
            return Ok(self.word());
        }
        Err(LexError::InvalidCharacter(c))
    }

    /// Reads the run of alphabetic characters at the current position as a
    /// keyword or an identifier.
    fn word(&mut self) -> (r: Token)
        requires
            old(self).wf(),
        ensures
            final(self).wf(),
            final(self).text() == old(self).text(),
            final(self).pos() == word_end(old(self).text(), old(self).pos()),
            r@ == word_token(
                old(self).text().subrange(old(self).pos(), word_end(old(self).text(), old(self).pos())),
            ),
    {
        let ghost s = self.text();
        let start = self.position;
        proof {
            lemma_word_end(s, start as int);
        }
        while self.position < self.chars.len() && char_is_alphabetic(self.chars[self.position])
            invariant
                self.wf(),
                self.text() == s,
                start <= self.position,
                word_end(s, self.pos()) == word_end(s, start as int),
            decreases self.chars@.len() - self.position,
        {
            self.advance();
        }
        let end = self.position;
        let n = end - start;
        let ghost w = self.chars@.subrange(start as int, end as int);
        let ch = &self.chars;
        if n == 2 && ch[start] == 'i' && ch[start + 1] == 'f' {
            assert(w =~= seq!['i', 'f']);
            Token::If
        } else if n == 4 && ch[start] == 't' && ch[start + 1] == 'h' && ch[start + 2] == 'e'
            && ch[start + 3] == 'n' {
            assert(w =~= seq!['t', 'h', 'e', 'n']);
            Token::Then
        } else if n == 4 && ch[start] == 'e' && ch[start + 1] == 'l' && ch[start + 2] == 's'
            && ch[start + 3] == 'e' {
            assert(w =~= seq!['e', 'l', 's', 'e']);
            Token::Else
        } else if n == 5 && ch[start] == 'p' && ch[start + 1] == 'r' && ch[start + 2] == 'i'
            && ch[start + 3] == 'n' && ch[start + 4] == 't' {
            assert(w =~= seq!['p', 'r', 'i', 'n', 't']);
            Token::Print
        } else if n == 5 && ch[start] == 'w' && ch[start + 1] == 'h' && ch[start + 2] == 'i'
            && ch[start + 3] == 'l' && ch[start + 4] == 'e' {
            assert(w =~= seq!['w', 'h', 'i', 'l', 'e']);
            Token::While
        } else {
            proof {
                assert(w.len() == n);
                assert forall|k: int| 0 <= k < n implies w[k] == ch@[start + k] by {}
                let kws = seq![
                    seq!['i', 'f'],
                    seq!['t', 'h', 'e', 'n'],
                    seq!['e', 'l', 's', 'e'],
                    seq!['p', 'r', 'i', 'n', 't'],
                    seq!['w', 'h', 'i', 'l', 'e'],
                ];
                assert forall|j: int| 0 <= j < 5 implies w != #[trigger] kws[j] by {
                    if w == kws[j] {
                        assert(w[0] == kws[j][0]);
                        assert(w[1] == kws[j][1]);
                        if n > 2 {
                            assert(w[2] == kws[j][2]);
                            assert(w[3] == kws[j][3]);
                        }
                        if n > 4 {
                            assert(w[4] == kws[j][4]);
                        }
                    }
                }
                assert(w != kws[0]);
                assert(w != kws[1]);
                assert(w != kws[2]);
                assert(w != kws[3]);
                assert(w != kws[4]);
            }
            let name = String::from_str(self.input.as_str().substring_char(start, end));
            Token::Ident(name)
        }
    }
}

} // verus!

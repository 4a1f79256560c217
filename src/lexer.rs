//! Tokens and the lexer that produces them from source text.

use vstd::prelude::*;
use vstd::string::*;

verus! {

/// A half-open range of character positions in the source text.
#[derive(Debug, Clone, Copy, PartialEq, Eq, Structural)]
pub struct Span {
    pub index: u32,
    pub len: u32,
}

/// The kinds of token that the lexer tells apart.
#[derive(Debug, Clone, Copy, PartialEq, Eq, Structural)]
pub enum TokenType {
    Identifier,
    Label,
    Comma,
    Integer,
    Newline,
    Comment,
    InvalidTokenError,
    InvalidIntegerError,
}

#[derive(Debug, Clone, Copy, PartialEq, Eq, Structural)]
pub struct Token {
    pub tt: TokenType,
    pub span: Span,
}

impl Span {
    /// Position one past the last character of the span.
    pub open spec fn end(self) -> int {
        self.index + self.len
    }
}

impl TokenType {
    /// The kind's name as it appears in messages.
    pub open spec fn spec_name(self) -> Seq<char> {
        match self {
            TokenType::Identifier => "Identifier"@,
            TokenType::Label => "Label"@,
            TokenType::Comma => "Comma"@,
            TokenType::Integer => "Integer"@,
            TokenType::Newline => "Newline"@,
            TokenType::Comment => "Comment"@,
            TokenType::InvalidTokenError => "InvalidTokenError"@,
            TokenType::InvalidIntegerError => "InvalidIntegerError"@,
        }
    }

    pub fn name(self) -> (r: &'static str)
        ensures
            r@ == self.spec_name(),
    {
        match self {
            TokenType::Identifier => "Identifier",
            TokenType::Label => "Label",
            TokenType::Comma => "Comma",
            TokenType::Integer => "Integer",
            TokenType::Newline => "Newline",
            TokenType::Comment => "Comment",
            TokenType::InvalidTokenError => "InvalidTokenError",
            TokenType::InvalidIntegerError => "InvalidIntegerError",
        }
    }
}

/// Whether `char::is_alphabetic` holds of `c` (the Unicode Alphabetic property).
pub uninterp spec fn alphabetic(c: char) -> bool;

/// Whether `char::is_alphanumeric` holds of `c` (Unicode Alphabetic or Numeric).
pub uninterp spec fn alphanumeric(c: char) -> bool;

/// Relies on `char::is_alphabetic`, which depends on the character alone.
#[verifier::external_body]
fn is_alphabetic(c: char) -> (r: bool)
    ensures
        r == alphabetic(c),
{
    c.is_alphabetic()
}

/// Relies on `char::is_alphanumeric`, which depends on the character alone.
#[verifier::external_body]
fn is_alphanumeric(c: char) -> (r: bool)
    ensures
        r == alphanumeric(c),
{
    c.is_alphanumeric()
}

pub open spec fn is_decimal_digit(c: char) -> bool {
    '0' <= c <= '9'
}

pub(crate) fn is_digit(c: char) -> (r: bool)
    ensures
        r == is_decimal_digit(c),
{
    '0' <= c && c <= '9'
}

/// Characters that separate tokens and produce none.
pub open spec fn is_blank(c: char) -> bool {
    c == ' ' || c == '\t' || c == '\r'
}

/// Characters that may follow the first one of an identifier.
pub open spec fn is_word_char(c: char) -> bool {
    alphanumeric(c) || c == '_' || c == '-'
}

/// Characters that continue a number: digits, and letters that make it invalid.
pub open spec fn is_number_char(c: char) -> bool {
    is_decimal_digit(c) || alphabetic(c)
}

/// How many characters from `i` on come before the next newline (or the end).
pub open spec fn len_to_newline(s: Seq<char>, i: int) -> nat
    decreases s.len() - i,
{
    if 0 <= i < s.len() && s[i] != '\n' {
        1 + len_to_newline(s, i + 1)
    } else {
        0
    }
}

/// How many characters from `i` on continue a number.
pub open spec fn number_len(s: Seq<char>, i: int) -> nat
    decreases s.len() - i,
{
    if 0 <= i < s.len() && is_number_char(s[i]) {
        1 + number_len(s, i + 1)
    } else {
        0
    }
}

/// How many characters from `i` on continue an identifier.
pub open spec fn word_len(s: Seq<char>, i: int) -> nat
    decreases s.len() - i,
{
    if 0 <= i < s.len() && is_word_char(s[i]) {
        1 + word_len(s, i + 1)
    } else {
        0
    }
}

/// The kind and length of the token that starts at `i`, where `s[i]` is no blank.
pub open spec fn scan(s: Seq<char>, i: int) -> (TokenType, nat) {
    let c = s[i];
    if c == '\n' {
        (TokenType::Newline, 1)
    } else if c == ',' {
        (TokenType::Comma, 1)
    } else if c == ';' {
        (TokenType::Comment, 1 + len_to_newline(s, i + 1))
    } else if is_decimal_digit(c) {
        let n = 1 + number_len(s, i + 1);
        if forall|j: int| i < j < i + n ==> is_decimal_digit(#[trigger] s[j]) {
            (TokenType::Integer, n)
        } else {
            (TokenType::InvalidIntegerError, n)
        }
    } else if alphabetic(c) {
        let n = 1 + word_len(s, i + 1);
        if i + n < s.len() && s[i + n] == ':' {
            (TokenType::Label, n + 1)
        } else {
            (TokenType::Identifier, n)
        }
    } else {
        (TokenType::InvalidTokenError, 1)
    }
}

/// A token of kind `tt` covering `len` characters from `i`.
pub open spec fn token_at(tt: TokenType, i: int, len: nat) -> Token {
    Token { tt, span: Span { index: i as u32, len: len as u32 } }
}

/// The tokens of `s` from position `i` on.
pub open spec fn lex_from(s: Seq<char>, i: int) -> Seq<Token>
    decreases (if i < s.len() {
        s.len() - i
    } else {
        0
    }),
{
    if i < 0 || i >= s.len() {
        seq![]
    } else if is_blank(s[i]) {
        lex_from(s, i + 1)
    } else {
        let t = scan(s, i);
        seq![token_at(t.0, i, t.1)] + lex_from(s, i + t.1)
    }
}

/// The characters of `s`, one by one.
pub fn chars_of(s: &str) -> (r: Vec<char>)
    ensures
        r@ == s@,
{
    let n = s.unicode_len();
    let mut r: Vec<char> = Vec::new();
    let mut i: usize = 0;
    while i < n
        invariant
            n == s@.len(),
            i <= n,
            r@ == s@.take(i as int),
        decreases n - i,
    {
        r.push(s.get_char(i));
        i += 1;
        assert(r@ =~= s@.take(i as int));
    }
    assert(s@.take(n as int) =~= s@);
    r
}

/// Whether `a` and `b` hold the same characters.
pub fn same_chars(a: &Vec<char>, b: &Vec<char>) -> (r: bool)
    ensures
        r == (a@ == b@),
{
    if a.len() != b.len() {
        return false;
    }
    let mut i: usize = 0;
    while i < a.len()
        invariant
            a@.len() == b@.len(),
            i <= a@.len(),
            forall|j: int| 0 <= j < i ==> a@[j] == b@[j],
        decreases a@.len() - i,
    {
        if a[i] != b[i] {
            return false;
        }
        i += 1;
    }
    assert(a@ =~= b@);
    true
}

/// Turns source text into tokens in one left-to-right scan; it never fails:
/// what cannot be read becomes an invalid token.
pub struct Lexer {
    input: Vec<char>,
    current_index: usize,
}

impl Lexer {
    /// The text being scanned.
    pub closed spec fn text(&self) -> Seq<char> {
        self.input@
    }

    /// Where the scan stands.
    pub closed spec fn position(&self) -> int {
        self.current_index as int
    }

    pub closed spec fn wf(&self) -> bool {
        self.current_index <= self.input@.len()
    }

    pub fn new(source: &str) -> (r: Lexer)
        ensures
            r.text() == source@,
            r.position() == 0,
            r.wf(),
    {
        Lexer { input: chars_of(source), current_index: 0 }
    }

    /// All tokens from the current position to the end of the text.
    pub fn lex(&mut self) -> (r: Vec<Token>)
        requires
            old(self).wf(),
        ensures
            r@ == lex_from(old(self).text(), old(self).position()),
            final(self).text() == old(self).text(),
            final(self).position() == old(self).text().len(),
            final(self).wf(),
    {
        let ghost s = self.input@;
        let ghost start = self.current_index as int;
        let mut tokens: Vec<Token> = Vec::new();
        loop
            invariant
                s == self.input@,
                s.len() == self.input.len(),
                self.current_index <= s.len(),
                lex_from(s, start) == tokens@ + lex_from(s, self.current_index as int),
            ensures
                self.current_index == s.len(),
            decreases s.len() - self.current_index,
        {
            let c = match self.peek_char() {
                Some(c) => c,
                None => {
                    break;
                },
            };
            let ghost i = self.current_index as int;
            let token = if c == '\r' || c == '\t' || c == ' ' {
                self.current_index += 1;
                continue;
            } else if c == '\n' {
                self.consume_current_single_char_token(TokenType::Newline)
            } else if c == ',' {
                self.consume_current_single_char_token(TokenType::Comma)
            } else if c == ';' {
                self.lex_comment()
            } else if is_digit(c) {
                self.lex_integer()
            } else if is_alphabetic(c) {
                self.lex_identifier()
            } else {
                self.consume_current_single_char_token(TokenType::InvalidTokenError)
            };
            let ghost prev = tokens@;
            tokens.push(token);
            proof {
                let n = scan(s, i).1;
                assert(lex_from(s, i) == seq![token] + lex_from(s, i + n));
                assert(prev + (seq![token] + lex_from(s, i + n)) =~= tokens@ + lex_from(s, i + n));
            }
        }
        assert(lex_from(s, self.current_index as int) =~= seq![]);
        assert(tokens@ + seq![] =~= tokens@);
        tokens
    }

    fn lex_comment(&mut self) -> (r: Token)
        requires
            old(self).current_index < old(self).input.len(),
            old(self).input@[old(self).current_index as int] == ';',
        ensures
            ({
                let (tt, n) = scan(old(self).input@, old(self).current_index as int);
                &&& r == token_at(tt, old(self).current_index as int, n)
                &&& final(self).current_index == old(self).current_index + n
            }),
            final(self).input@ == old(self).input@,
            final(self).current_index <= final(self).input@.len(),
    {
        let ghost s = self.input@;
        let start_index = self.current_index;
        let mut len: usize = 1;
        self.current_index += 1;
        loop
            invariant
                s == self.input@,
                s.len() == self.input.len(),
                start_index < self.current_index <= s.len(),
                len == self.current_index - start_index,
                len_to_newline(s, start_index + 1) == (self.current_index - start_index - 1)
                    + len_to_newline(s, self.current_index as int),
            ensures
                self.current_index == s.len() || s[self.current_index as int] == '\n',
            decreases s.len() - self.current_index,
        {
            match self.peek_char() {
                Some(c) => {
                    if c == '\n' {
                        break;
                    }
                },
                None => {
                    break;
                },
            }
            len += 1;
            self.current_index += 1;
        }
        Token { tt: TokenType::Comment, span: Span { index: start_index as u32, len: len as u32 } }
    }

    fn lex_integer(&mut self) -> (r: Token)
        requires
            old(self).current_index < old(self).input.len(),
            is_decimal_digit(old(self).input@[old(self).current_index as int]),
        ensures
            ({
                let (tt, n) = scan(old(self).input@, old(self).current_index as int);
                &&& r == token_at(tt, old(self).current_index as int, n)
                &&& final(self).current_index == old(self).current_index + n
            }),
            final(self).input@ == old(self).input@,
            final(self).current_index <= final(self).input@.len(),
    {
        let ghost s = self.input@;
        let start_index = self.current_index;
        let mut len: usize = 1;
        let mut is_valid_int = true;
        self.current_index += 1;
        loop
            invariant
                s == self.input@,
                s.len() == self.input.len(),
                start_index < self.current_index <= s.len(),
                len == self.current_index - start_index,
                number_len(s, start_index + 1) == (self.current_index - start_index - 1)
                    + number_len(s, self.current_index as int),
                is_valid_int == forall|j: int|
                    start_index < j < self.current_index ==> is_decimal_digit(#[trigger] s[j]),
            ensures
                self.current_index == s.len() || !is_number_char(s[self.current_index as int]),
            decreases s.len() - self.current_index,
        {
            let c = match self.peek_char() {
                Some(c) => c,
                None => {
                    break;
                },
            };
            if is_digit(c) {
                len += 1;
                self.current_index += 1;
            } else if is_alphabetic(c) {
                is_valid_int = false;
                len += 1;
                self.current_index += 1;
            } else {
                break;
            }
        }
        let span = Span { index: start_index as u32, len: len as u32 };
        if is_valid_int {
            Token { tt: TokenType::Integer, span }
        } else {
            Token { tt: TokenType::InvalidIntegerError, span }
        }
    }

    fn lex_identifier(&mut self) -> (r: Token)
        requires
            old(self).current_index < old(self).input.len(),
            alphabetic(old(self).input@[old(self).current_index as int]),
            !is_decimal_digit(old(self).input@[old(self).current_index as int]),
            old(self).input@[old(self).current_index as int] != '\n',
            old(self).input@[old(self).current_index as int] != ',',
            old(self).input@[old(self).current_index as int] != ';',
        ensures
            ({
                let (tt, n) = scan(old(self).input@, old(self).current_index as int);
                &&& r == token_at(tt, old(self).current_index as int, n)
                &&& final(self).current_index == old(self).current_index + n
            }),
            final(self).input@ == old(self).input@,
            final(self).current_index <= final(self).input@.len(),
    {
        let ghost s = self.input@;
        let start_index = self.current_index;
        let mut len: usize = 1;
        let mut is_label = false;
        self.current_index += 1;
        loop
            invariant_except_break
                !is_label,
                word_len(s, start_index + 1) == (self.current_index - start_index - 1)
                    + word_len(s, self.current_index as int),
            invariant
                s == self.input@,
                s.len() == self.input.len(),
                start_index < self.current_index <= s.len(),
                len == self.current_index - start_index,
            ensures
                is_label ==> s[self.current_index - 1] == ':' && !is_word_char(
                    s[self.current_index - 1],
                ) && word_len(s, start_index + 1) == self.current_index - start_index - 2,
                !is_label ==> word_len(s, start_index + 1) == self.current_index - start_index - 1
                    && (self.current_index == s.len() || (!is_word_char(
                    s[self.current_index as int],
                ) && s[self.current_index as int] != ':')),
            decreases s.len() - self.current_index,
        {
            let c = match self.peek_char() {
                Some(c) => c,
                None => {
                    break;
                },
            };
            if is_alphanumeric(c) || c == '_' || c == '-' {
                len += 1;
                self.current_index += 1;
            } else if c == ':' {
                len += 1;
                self.current_index += 1;
                is_label = true;
                break;
            } else {
                break;
            }
        }
        let span = Span { index: start_index as u32, len: len as u32 };
        if is_label {
            Token { tt: TokenType::Label, span }
        } else {
            Token { tt: TokenType::Identifier, span }
        }
    }

    fn consume_current_single_char_token(&mut self, tt: TokenType) -> (r: Token)
        requires
            old(self).current_index < old(self).input.len(),
        ensures
            r == token_at(tt, old(self).current_index as int, 1),
            final(self).current_index == old(self).current_index + 1,
            final(self).input@ == old(self).input@,
    {
        let token = Token { tt, span: Span { index: self.current_index as u32, len: 1 } };
        self.current_index += 1;
        token
    }

    fn peek_char(&self) -> (r: Option<char>)
        ensures
            r == (if self.current_index < self.input@.len() {
                Some(self.input@[self.current_index as int])
            } else {
                None
            }),
    {
        if self.current_index < self.input.len() {
            Some(self.input[self.current_index])
        } else {
            None
        }
    }
}

/// Every token lies inside `text`, and a label token holds at least its colon.
pub open spec fn tokens_fit(toks: Seq<Token>, text: Seq<char>) -> bool {
    forall|k: int|
        0 <= k < toks.len() ==> #[trigger] toks[k].span.end() <= text.len() && (toks[k].tt
            == TokenType::Label ==> toks[k].span.len >= 1)
}

proof fn lemma_number_len_bound(s: Seq<char>, i: int)
    requires
        0 <= i <= s.len(),
    ensures
        i + number_len(s, i) <= s.len(),
    decreases s.len() - i,
{
    if i < s.len() && is_number_char(s[i]) {
        lemma_number_len_bound(s, i + 1);
    }
}

proof fn lemma_word_len_bound(s: Seq<char>, i: int)
    requires
        0 <= i <= s.len(),
    ensures
        i + word_len(s, i) <= s.len(),
    decreases s.len() - i,
{
    if i < s.len() && is_word_char(s[i]) {
        lemma_word_len_bound(s, i + 1);
    }
}

/// The run up to the next newline ends within the text, at a newline if anywhere.
pub proof fn lemma_len_to_newline_bound(s: Seq<char>, i: int)
    requires
        0 <= i <= s.len(),
    ensures
        i + len_to_newline(s, i) <= s.len(),
        i + len_to_newline(s, i) < s.len() ==> s[i + len_to_newline(s, i)] == '\n',
        forall|j: int| i <= j < i + len_to_newline(s, i) ==> s[j] != '\n',
    decreases s.len() - i,
{
    if i < s.len() && s[i] != '\n' {
        lemma_len_to_newline_bound(s, i + 1);
    }
}

/// The token scanned at `i` ends within the text.
proof fn lemma_scan_bound(s: Seq<char>, i: int)
    requires
        0 <= i < s.len(),
    ensures
        1 <= scan(s, i).1,
        i + scan(s, i).1 <= s.len(),
        scan(s, i).0 == TokenType::Label ==> scan(s, i).1 >= 1,
{
    lemma_len_to_newline_bound(s, i + 1);
    lemma_number_len_bound(s, i + 1);
    lemma_word_len_bound(s, i + 1);
}

/// The tokens that the lexer produces lie inside the text.
pub proof fn lemma_lex_fits(s: Seq<char>, i: int)
    requires
        0 <= i,
        s.len() <= u32::MAX,
    ensures
        tokens_fit(lex_from(s, i), s),
    decreases (if i < s.len() {
        s.len() - i
    } else {
        0
    }),
{
    if 0 <= i < s.len() {
        if is_blank(s[i]) {
            lemma_lex_fits(s, i + 1);
        } else {
            let t = scan(s, i);
            lemma_scan_bound(s, i);
            lemma_lex_fits(s, i + t.1);
            let rest = lex_from(s, i + t.1);
            let all = lex_from(s, i);
            assert(all == seq![token_at(t.0, i, t.1)] + rest);
            assert forall|k: int| 0 <= k < all.len() implies #[trigger] all[k].span.end() <= s.len()
                && (all[k].tt == TokenType::Label ==> all[k].span.len >= 1) by {
                if k > 0 {
                    assert(all[k] == rest[k - 1]);
                }
            }
        }
    }
}

} // verus!

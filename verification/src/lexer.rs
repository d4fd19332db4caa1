use vstd::prelude::*;
use crate::token::{SToken, Token};
use crate::text::{alphabetic, char_is_alphabetic, chars_of, collect_chars};

verus! {

// ---------------------------------------------------------------------------
// The tokenizer as mathematics
// ---------------------------------------------------------------------------

/// The character at `p`, or NUL past the end of the input.
pub open spec fn char_at(input: Seq<char>, p: int) -> char {
    if 0 <= p < input.len() {
        input[p]
    } else {
        '\0'
    }
}

/// ASCII whitespace: space, tab, line feed, form feed, carriage return.
pub open spec fn is_space(c: char) -> bool {
    c == ' ' || c == '\t' || c == '\n' || c == '\x0C' || c == '\r'
}

/// A character that may stand in an identifier.
pub open spec fn is_letter_char(c: char) -> bool {
    alphabetic(c) || c == '_'
}

/// An ASCII decimal digit.
pub open spec fn is_digit_char(c: char) -> bool {
    '0' <= c && c <= '9'
}

/// The first position at or after `p` that does not hold whitespace.
pub open spec fn skip_spaces(input: Seq<char>, p: nat) -> nat
    decreases input.len() - p,
{
    if p < input.len() && is_space(input[p as int]) {
        skip_spaces(input, p + 1)
    } else {
        p
    }
}

/// The first position at or after `p` that does not hold a letter.
pub open spec fn letters_end(input: Seq<char>, p: nat) -> nat
    decreases input.len() - p,
{
    if p < input.len() && is_letter_char(input[p as int]) {
        letters_end(input, p + 1)
    } else {
        p
    }
}

/// The first position at or after `p` that does not hold a digit.
pub open spec fn digits_end(input: Seq<char>, p: nat) -> nat
    decreases input.len() - p,
{
    if p < input.len() && is_digit_char(input[p as int]) {
        digits_end(input, p + 1)
    } else {
        p
    }
}

/// The first position at or after `p` that holds a double quote or NUL, or the end.
pub open spec fn quote_end(input: Seq<char>, p: nat) -> nat
    decreases input.len() - p,
{
    if p < input.len() && input[p as int] != '"' && input[p as int] != '\0' {
        quote_end(input, p + 1)
    } else {
        p
    }
}

/// The value of a string of decimal digits.
pub open spec fn digits_value(s: Seq<char>) -> int
    decreases s.len(),
{
    if s.len() == 0 {
        0
    } else {
        digits_value(s.drop_last()) * 10 + (s.last() as int - '0' as int)
    }
}

/// A number literal's value: its digits read in base ten, or 0 where that does not fit an `i64`.
pub open spec fn number_value(s: Seq<char>) -> i64 {
    if digits_value(s) <= i64::MAX {
        digits_value(s) as i64
    } else {
        0
    }
}

/// The keyword spelled by a word, or an identifier token.
pub open spec fn keyword(w: Seq<char>) -> SToken {
    if w == seq!['l', 'e', 't'] {
        SToken::Let
    } else if w == seq!['f', 'n'] {
        SToken::Fn
    } else if w == seq!['w', 'h', 'e', 'n'] {
        SToken::When
    } else if w == seq!['o', 't', 'h', 'e', 'r', 'w', 'i', 's', 'e'] {
        SToken::Otherwise
    } else if w == seq!['l', 'o', 'o', 'p'] {
        SToken::Loop
    } else if w == seq!['w', 'h', 'i', 'l', 'e'] {
        SToken::While
    } else if w == seq!['i', 'm', 'p', 'o', 'r', 't'] {
        SToken::Import
    } else if w == seq!['c', 'l', 'a', 's', 's'] {
        SToken::Class
    } else if w == seq!['n', 'e', 'w'] {
        SToken::New
    } else if w == seq!['r', 'e', 't', 'u', 'r', 'n'] {
        SToken::Return
    } else if w == seq!['d', 'o', 'n', 'e'] {
        SToken::Done
    } else if w == seq!['t', 'r', 'u', 'e'] {
        SToken::True
    } else if w == seq!['f', 'a', 'l', 's', 'e'] {
        SToken::False
    } else {
        SToken::Ident(w)
    }
}

/// The token of a character that stands alone.
pub open spec fn single_char_token(c: char) -> Option<SToken> {
    if c == '+' {
        Some(SToken::Plus)
    } else if c == '-' {
        Some(SToken::Minus)
    } else if c == '*' {
        Some(SToken::Asterisk)
    } else if c == '/' {
        Some(SToken::Slash)
    } else if c == '<' {
        Some(SToken::Lt)
    } else if c == '>' {
        Some(SToken::Gt)
    } else if c == ':' {
        Some(SToken::Colon)
    } else if c == ',' {
        Some(SToken::Comma)
    } else if c == '.' {
        Some(SToken::Dot)
    } else if c == '(' {
        Some(SToken::LParen)
    } else if c == ')' {
        Some(SToken::RParen)
    } else if c == '[' {
        Some(SToken::LBracket)
    } else if c == ']' {
        Some(SToken::RBracket)
    } else if c == '{' {
        Some(SToken::LBrace)
    } else if c == '}' {
        Some(SToken::RBrace)
    } else {
        None
    }
}

/// One step past `p`, but never past the end of the input.
pub open spec fn step(input: Seq<char>, p: nat) -> nat {
    if p < input.len() {
        p + 1
    } else {
        p
    }
}

/// The token that starts at or after position `p` of `input`, and the position after it.
#[verifier::opaque]
pub open spec fn next_token_at(input: Seq<char>, p: nat) -> (SToken, nat) {
    let s = skip_spaces(input, p);
    let c = char_at(input, s as int);
    if c == '=' {
        if char_at(input, s + 1int) == '=' {
            (SToken::Eq, s + 2)
        } else {
            (SToken::Assign, s + 1)
        }
    } else if single_char_token(c) is Some {
        (single_char_token(c)->0, s + 1)
    } else if c == '!' {
        if char_at(input, s + 1int) == '=' {
            (SToken::NotEq, s + 2)
        } else {
            (SToken::Illegal, s + 1)
        }
    } else if c == '"' {
        let e = quote_end(input, s + 1);
        (SToken::Str(input.subrange(s + 1int, e as int)), step(input, e))
    } else if c == '\0' {
        (SToken::Eof, step(input, s))
    } else if is_letter_char(c) {
        let e = letters_end(input, s);
        (keyword(input.subrange(s as int, e as int)), e)
    } else if is_digit_char(c) {
        let e = digits_end(input, s);
        (SToken::Int(number_value(input.subrange(s as int, e as int))), e)
    } else {
        (SToken::Illegal, s + 1)
    }
}

/// Line and column after the first `n` characters have been read.
pub open spec fn line_col(input: Seq<char>, n: nat) -> (nat, nat)
    decreases n,
{
    if n == 0 {
        (1, 0)
    } else {
        let (l, c) = line_col(input, (n - 1) as nat);
        if input[n - 1] == '\n' {
            (l + 1, 0)
        } else {
            (l, c + 1)
        }
    }
}

proof fn lemma_line_col_bounds(input: Seq<char>, n: nat)
    ensures
        line_col(input, n).0 <= n + 1,
        line_col(input, n).1 <= n,
        line_col(input, n).0 >= 1,
    decreases n,
{
    if n > 0 {
        lemma_line_col_bounds(input, (n - 1) as nat);
    }
}

proof fn lemma_skip_spaces(input: Seq<char>, p: nat)
    ensures
        p <= skip_spaces(input, p),
        p <= input.len() ==> skip_spaces(input, p) <= input.len(),
        !is_space(char_at(input, skip_spaces(input, p) as int)),
    decreases input.len() - p,
{
    if p < input.len() && is_space(input[p as int]) {
        lemma_skip_spaces(input, p + 1);
    }
}

proof fn lemma_letters_end(input: Seq<char>, p: nat)
    requires
        p <= input.len(),
    ensures
        p <= letters_end(input, p) <= input.len(),
    decreases input.len() - p,
{
    if p < input.len() && is_letter_char(input[p as int]) {
        lemma_letters_end(input, p + 1);
    }
}

proof fn lemma_digits_end(input: Seq<char>, p: nat)
    requires
        p <= input.len(),
    ensures
        p <= digits_end(input, p) <= input.len(),
        forall|i: int| p <= i < digits_end(input, p) ==> is_digit_char(#[trigger] input[i]),
    decreases input.len() - p,
{
    if p < input.len() && is_digit_char(input[p as int]) {
        lemma_digits_end(input, p + 1);
    }
}

proof fn lemma_quote_end(input: Seq<char>, p: nat)
    requires
        p <= input.len(),
    ensures
        p <= quote_end(input, p) <= input.len(),
    decreases input.len() - p,
{
    if p < input.len() && input[p as int] != '"' && input[p as int] != '\0' {
        lemma_quote_end(input, p + 1);
    }
}

/// Scanning a token never moves backwards, stays within the input, and stands still
/// only at the end of the input, where the token is `Eof`.
pub proof fn lemma_next_token_progress(input: Seq<char>, p: nat)
    requires
        p <= input.len(),
    ensures
        p <= next_token_at(input, p).1 <= input.len(),
        next_token_at(input, p).1 == p ==> (p == input.len() && next_token_at(input, p).0
            == SToken::Eof),
        p == input.len() ==> next_token_at(input, p) == (SToken::Eof, p),
{
    reveal(next_token_at);
    lemma_skip_spaces(input, p);
    let s = skip_spaces(input, p);
    lemma_letters_end(input, s);
    lemma_digits_end(input, s);
    if s + 1 <= input.len() {
        lemma_quote_end(input, s + 1);
    }
    let c = char_at(input, s as int);
    if s < input.len() {
        lemma_letters_end(input, s + 1);
        lemma_digits_end(input, s + 1);
    }
}

/// Where a lexer started at the beginning of `input` stands after it has made `n` tokens.
pub open spec fn lexed_pos(input: Seq<char>, n: nat) -> nat
    decreases n,
{
    if n == 0 {
        0
    } else {
        next_token_at(input, lexed_pos(input, (n - 1) as nat)).1
    }
}

/// The token that a lexer started at the beginning of `input` makes at its call number `n`
/// (counting from 0).
pub open spec fn lexed_token(input: Seq<char>, n: nat) -> SToken {
    next_token_at(input, lexed_pos(input, n)).0
}

/// The lexer stays within its input, and each token before the first `Eof` moves it on by at
/// least one character.
pub proof fn lemma_lexed_pos(input: Seq<char>, n: nat)
    ensures
        lexed_pos(input, n) <= input.len(),
        (forall|j: nat| j < n ==> lexed_token(input, j) != SToken::Eof) ==> lexed_pos(input, n) >= n,
    decreases n,
{
    if n > 0 {
        let m: nat = (n - 1) as nat;
        lemma_lexed_pos(input, m);
        lemma_next_token_progress(input, lexed_pos(input, m));
        if forall|j: nat| j < n ==> lexed_token(input, j) != SToken::Eof {
            assert(lexed_token(input, m) != SToken::Eof);
            assert forall|j: nat| j < m implies lexed_token(input, j) != SToken::Eof by {
                assert(j < n);
            }
        }
    }
}

/// A lexer reports the end within its first `n + 1` calls on an input of `n` characters: no
/// call loops forever, and every token before the end takes up at least one character.
pub proof fn lemma_eof_within(input: Seq<char>)
    ensures
        exists|k: nat| k <= input.len() && lexed_token(input, k) == SToken::Eof,
{
    if forall|k: nat| k <= input.len() ==> lexed_token(input, k) != SToken::Eof {
        let n: nat = (input.len() + 1) as nat;
        assert forall|j: nat| j < n implies lexed_token(input, j) != SToken::Eof by {
            assert(j <= input.len());
        }
        lemma_lexed_pos(input, n);
    }
}

/// On an input with no NUL character, the lexer reports the end only at the end of the input,
/// and from there on it keeps reporting the end without moving.
pub proof fn lemma_eof_stays(input: Seq<char>, p: nat)
    requires
        p <= input.len(),
        forall|i: int| 0 <= i < input.len() ==> input[i] != '\0',
        next_token_at(input, p).0 == SToken::Eof,
    ensures
        next_token_at(input, p).1 == input.len(),
        next_token_at(input, input.len()) == (SToken::Eof, input.len()),
{
    reveal(next_token_at);
    lemma_skip_spaces(input, p);
    lemma_next_token_progress(input, input.len());
    let s = skip_spaces(input, p);
    let c = char_at(input, s as int);
    if s < input.len() {
        assert(c == input[s as int]);
        assert(c != '\0');
        if is_letter_char(c) {
            let w = input.subrange(s as int, letters_end(input, s) as int);
            assert(keyword(w) != SToken::Eof);
        }
        if single_char_token(c) is Some {
            assert(single_char_token(c)->0 != SToken::Eof);
        }
    }
}

// ---------------------------------------------------------------------------
// The lexer
// ---------------------------------------------------------------------------

/// Reads Kingcobra source code character by character and groups the characters into tokens.
pub struct Lexer {
    input: Vec<char>,
    position: usize,
    read_position: usize,
    ch: char,
    pub line: usize,
    pub column: usize,
}

impl Lexer {
    /// The characters being tokenized.
    pub closed spec fn input(&self) -> Seq<char> {
        self.input@
    }

    /// The position of the character under examination.
    pub closed spec fn pos(&self) -> nat {
        self.position as nat
    }

    /// The number of characters read so far.
    pub open spec fn consumed(&self) -> nat {
        if self.pos() < self.input().len() {
            self.pos() + 1
        } else {
            self.input().len()
        }
    }

    /// The lexer's fields agree with one another.
    pub closed spec fn wf(&self) -> bool {
        &&& self.input@.len() < usize::MAX
        &&& self.position <= self.input@.len()
        &&& self.read_position == self.position + 1
        &&& self.ch == char_at(self.input@, self.position as int)
        &&& self.line == line_col(self.input@, self.consumed()).0
        &&& self.column == line_col(self.input@, self.consumed()).1
    }

    /// A lexer over the characters of `input`, looking at its first character.
    pub fn new(input: &str) -> (lexer: Self)
        requires
            input@.len() < usize::MAX,
        ensures
            lexer.wf(),
            lexer.input() == input@,
            lexer.pos() == 0,
    {
        let chars = chars_of(input);
        let mut lexer = Lexer { input: chars, position: 0, read_position: 0, ch: '\0', line: 1, column: 0 };
        lexer.read_char();
        lexer
    }

    /// A well-formed lexer stands within its input.
    pub proof fn lemma_within(&self)
        requires
            self.wf(),
        ensures
            self.pos() <= self.input().len(),
    {
    }

    /// The line of the last character read, counting from 1.
    pub fn line(&self) -> (l: usize)
        requires
            self.wf(),
        ensures
            l == line_col(self.input(), self.consumed()).0,
    {
        self.line
    }

    /// The column of the last character read on its line, counting from 1 (0 before any).
    pub fn column(&self) -> (c: usize)
        requires
            self.wf(),
        ensures
            c == line_col(self.input(), self.consumed()).1,
    {
        self.column
    }

    /// Advances to the next character; at the end of the input it stays put.
    fn read_char(&mut self)
        requires
            old(self).input@.len() < usize::MAX,
            old(self).read_position <= old(self).input@.len() + 1,
            old(self).read_position == 0 ==> old(self).line == 1 && old(self).column == 0,
            old(self).read_position > 0 ==> old(self).wf(),
        ensures
            final(self).wf(),
            final(self).input@ == old(self).input@,
            final(self).position == (if old(self).read_position <= old(self).input@.len() {
                old(self).read_position
            } else {
                old(self).position
            }),
    {
        let len: usize = self.input.len();
        if self.read_position <= len {
            proof {
                lemma_line_col_bounds(self.input@, self.read_position as nat);
            }
            if self.read_position >= len {
                self.ch = '\0';
            } else {
                self.ch = self.input[self.read_position];
                if self.ch == '\n' {
                    self.line = self.line + 1;
                    self.column = 0;
                } else {
                    self.column = self.column + 1;
                }
            }
            self.position = self.read_position;
            self.read_position = self.read_position + 1;
        }
    }

    /// The character after the current one, or NUL past the end.
    fn peek_char(&self) -> (c: char)
        requires
            self.wf(),
        ensures
            c == char_at(self.input@, self.position + 1),
    {
        if self.read_position >= self.input.len() {
            '\0'
        } else {
            self.input[self.read_position]
        }
    }

    /// Gets the next token from the input, and moves past it.
    pub fn next_token(&mut self) -> (tok: Token)
        requires
            old(self).wf(),
        ensures
            final(self).wf(),
            final(self).input() == old(self).input(),
            (tok@, final(self).pos()) == next_token_at(old(self).input(), old(self).pos()),
    {
        self.skip_whitespace();
        let ghost s = self.position;
        proof {
            reveal(next_token_at);
            lemma_skip_spaces(self.input@, old(self).pos());
        }
        let c = self.ch;
        let tok = if c == '=' {
            if self.peek_char() == '=' {
                self.read_char();
                Token::Eq
            } else {
                Token::Assign
            }
        } else if c == '+' {
            Token::Plus
        } else if c == '-' {
            Token::Minus
        } else if c == '*' {
            Token::Asterisk
        } else if c == '/' {
            Token::Slash
        } else if c == '<' {
            Token::Lt
        } else if c == '>' {
            Token::Gt
        } else if c == ':' {
            Token::Colon
        } else if c == ',' {
            Token::Comma
        } else if c == '.' {
            Token::Dot
        } else if c == '(' {
            Token::LParen
        } else if c == ')' {
            Token::RParen
        } else if c == '[' {
            Token::LBracket
        } else if c == ']' {
            Token::RBracket
        } else if c == '{' {
            Token::LBrace
        } else if c == '}' {
            Token::RBrace
        } else if c == '!' {
            if self.peek_char() == '=' {
                self.read_char();
                Token::NotEq
            } else {
                Token::Illegal
            }
        } else if c == '"' {
            Token::String(self.read_string())
        } else if c == '\0' {
            Token::Eof
        } else if is_letter(c) {
            return self.read_identifier();
        } else if is_digit(c) {
            return Token::Int(self.read_number());
        } else {
            Token::Illegal
        };
        self.read_char();
        tok
    }

    /// Skips spaces, tabs and line breaks.
    fn skip_whitespace(&mut self)
        requires
            old(self).wf(),
        ensures
            final(self).wf(),
            final(self).input@ == old(self).input@,
            final(self).pos() == skip_spaces(old(self).input@, old(self).pos()),
    {
        while is_whitespace(self.ch)
            invariant
                self.wf(),
                self.input@ == old(self).input@,
                skip_spaces(self.input@, self.pos()) == skip_spaces(old(self).input@, old(self).pos()),
            decreases self.input@.len() - self.position,
        {
            self.read_char();
        }
    }

    /// Reads a whole word, and gives its keyword or identifier token.
    fn read_identifier(&mut self) -> (tok: Token)
        requires
            old(self).wf(),
            is_letter_char(old(self).ch),
        ensures
            final(self).wf(),
            final(self).input@ == old(self).input@,
            final(self).pos() == letters_end(old(self).input@, old(self).pos()),
            tok@ == keyword(old(self).input@.subrange(
                old(self).pos() as int,
                final(self).pos() as int,
            )),
    {
        let start: usize = self.position;
        while is_letter(self.ch)
            invariant
                self.wf(),
                self.input@ == old(self).input@,
                start <= self.position,
                letters_end(self.input@, self.pos()) == letters_end(
                    old(self).input@,
                    old(self).pos(),
                ),
            decreases self.input@.len() - self.position,
        {
            self.read_char();
        }
        lookup_ident(&self.input, start, self.position)
    }

    /// Reads a whole number; one too large for an `i64` reads as 0.
    fn read_number(&mut self) -> (n: i64)
        requires
            old(self).wf(),
            is_digit_char(old(self).ch),
        ensures
            final(self).wf(),
            final(self).input@ == old(self).input@,
            final(self).pos() == digits_end(old(self).input@, old(self).pos()),
            n == number_value(old(self).input@.subrange(
                old(self).pos() as int,
                final(self).pos() as int,
            )),
    {
        let start: usize = self.position;
        while is_digit(self.ch)
            invariant
                self.wf(),
                self.input@ == old(self).input@,
                start <= self.position,
                start == old(self).position,
                digits_end(self.input@, self.pos()) == digits_end(old(self).input@, old(self).pos()),
            decreases self.input@.len() - self.position,
        {
            self.read_char();
        }
        proof {
            lemma_digits_end(self.input@, start as nat);
        }
        parse_digits(&self.input, start, self.position)
    }

    /// Reads a string literal that starts at the current double quote, up to the closing
    /// quote, a NUL or the end of the input.
    fn read_string(&mut self) -> (s: String)
        requires
            old(self).wf(),
            old(self).ch == '"',
        ensures
            final(self).wf(),
            final(self).input@ == old(self).input@,
            final(self).pos() == quote_end(old(self).input@, old(self).pos() + 1),
            s@ == old(self).input@.subrange(old(self).pos() + 1int, final(self).pos() as int),
    {
        let start: usize = self.position + 1;
        self.read_char();
        proof {
            lemma_quote_end(self.input@, start as nat);
        }
        while self.ch != '"' && self.ch != '\0'
            invariant
                self.wf(),
                self.input@ == old(self).input@,
                start <= self.position,
                start == old(self).position + 1,
                quote_end(self.input@, self.pos()) == quote_end(old(self).input@, start as nat),
            decreases self.input@.len() - self.position,
        {
            self.read_char();
        }
        collect_chars(&self.input, start, self.position)
    }
}

/// Whether a character may stand in an identifier: a letter (Unicode `Alphabetic`) or `_`.
/// Among ASCII characters these are exactly `a`..`z`, `A`..`Z` and `_`.
pub fn is_letter(ch: char) -> (r: bool)
    ensures
        r == is_letter_char(ch),
        ch == '\0' ==> !r,
        (ch as u32) < 128 ==> (r <==> (('a' <= ch && ch <= 'z') || ('A' <= ch && ch <= 'Z') || ch == '_')),
{
    char_is_alphabetic(ch) || ch == '_'
}

/// Whether a character is an ASCII digit.
fn is_digit(ch: char) -> (r: bool)
    ensures
        r == is_digit_char(ch),
{
    '0' <= ch && ch <= '9'
}

/// Whether a character is ASCII whitespace.
fn is_whitespace(ch: char) -> (r: bool)
    ensures
        r == is_space(ch),
{
    ch == ' ' || ch == '\t' || ch == '\n' || ch == '\x0C' || ch == '\r'
}

/// Whether `input[start..end]` spells `word`.
fn spells(input: &Vec<char>, start: usize, end: usize, word: &[char]) -> (r: bool)
    requires
        start <= end <= input@.len(),
    ensures
        r == (input@.subrange(start as int, end as int) == word@),
{
    if end - start != word.len() {
        return false;
    }
    let mut i: usize = 0;
    while i < word.len()
        invariant
            start <= end <= input@.len(),
            end - start == word@.len(),
            i <= word@.len(),
            forall|j: int| 0 <= j < i ==> input@[start + j] == word@[j],
        decreases word@.len() - i,
    {
        if input[start + i] != word[i] {
            assert(input@.subrange(start as int, end as int)[i as int] != word@[i as int]);
            return false;
        }
        i = i + 1;
    }
    assert(input@.subrange(start as int, end as int) =~= word@);
    true
}

/// The keyword token spelled by `input[start..end]`, or an identifier token.
fn lookup_ident(input: &Vec<char>, start: usize, end: usize) -> (tok: Token)
    requires
        start <= end <= input@.len(),
    ensures
        tok@ == keyword(input@.subrange(start as int, end as int)),
{
    let ghost w = input@.subrange(start as int, end as int);
    if spells(input, start, end, &['l', 'e', 't']) {
        Token::Let
    } else if spells(input, start, end, &['f', 'n']) {
        Token::Fn
    } else if spells(input, start, end, &['w', 'h', 'e', 'n']) {
        Token::When
    } else if spells(input, start, end, &['o', 't', 'h', 'e', 'r', 'w', 'i', 's', 'e']) {
        Token::Otherwise
    } else if spells(input, start, end, &['l', 'o', 'o', 'p']) {
        Token::Loop
    } else if spells(input, start, end, &['w', 'h', 'i', 'l', 'e']) {
        Token::While
    } else if spells(input, start, end, &['i', 'm', 'p', 'o', 'r', 't']) {
        Token::Import
    } else if spells(input, start, end, &['c', 'l', 'a', 's', 's']) {
        Token::Class
    } else if spells(input, start, end, &['n', 'e', 'w']) {
        Token::New
    } else if spells(input, start, end, &['r', 'e', 't', 'u', 'r', 'n']) {
        Token::Return
    } else if spells(input, start, end, &['d', 'o', 'n', 'e']) {
        Token::Done
    } else if spells(input, start, end, &['t', 'r', 'u', 'e']) {
        Token::True
    } else if spells(input, start, end, &['f', 'a', 'l', 's', 'e']) {
        Token::False
    } else {
        Token::Ident(collect_chars(input, start, end))
    }
}

/// The value of the digits `input[start..end]`, or 0 when it does not fit an `i64`.
fn parse_digits(input: &Vec<char>, start: usize, end: usize) -> (n: i64)
    requires
        start <= end <= input@.len(),
        forall|i: int| start <= i < end ==> is_digit_char(#[trigger] input@[i]),
    ensures
        n == number_value(input@.subrange(start as int, end as int)),
{
    let mut acc: i64 = 0;
    let mut overflow = false;
    let mut i: usize = start;
    assert(input@.subrange(start as int, start as int) =~= Seq::<char>::empty());
    while i < end
        invariant
            start <= i <= end <= input@.len(),
            forall|k: int| start <= k < end ==> is_digit_char(#[trigger] input@[k]),
            digits_value(input@.subrange(start as int, i as int)) >= 0,
            !overflow ==> acc == digits_value(input@.subrange(start as int, i as int)),
            overflow ==> digits_value(input@.subrange(start as int, i as int)) > i64::MAX,
        decreases end - i,
    {
        let ghost prev = input@.subrange(start as int, i as int);
        let c = input[i];
        assert(is_digit_char(input@[i as int]));
        let d: i64 = (c as u32 - '0' as u32) as i64;
        assert(input@.subrange(start as int, i + 1).drop_last() =~= prev);
        assert(input@.subrange(start as int, i + 1).last() == c);
        if !overflow {
            match acc.checked_mul(10) {
                Some(m) => match m.checked_add(d) {
                    Some(v) => {
                        acc = v;
                    },
                    None => {
                        overflow = true;
                    },
                },
                None => {
                    overflow = true;
                },
            }
        }
        i = i + 1;
    }
    if overflow {
        0
    } else {
        acc
    }
}

} // verus!

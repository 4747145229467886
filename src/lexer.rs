use vstd::prelude::*;
use crate::basics::string_of;
use crate::token::{keyword_kind, keyword_of, chars_of, SpecToken, Token, TokenKind};

verus! {

pub open spec fn is_letter_char(c: char) -> bool {
    ('a' <= c && c <= 'z') || ('A' <= c && c <= 'Z') || c == '_'
}

pub open spec fn is_digit_char(c: char) -> bool {
    '0' <= c && c <= '9'
}

pub open spec fn is_space_char(c: char) -> bool {
    c == ' ' || c == '\t' || c == '\n' || c == '\r'
}

/// The character at `i`, or NUL past the end of the source.
pub open spec fn char_at(s: Seq<char>, i: int) -> char {
    if 0 <= i < s.len() {
        s[i]
    } else {
        '\0'
    }
}

/// The first position at or after `i` that does not hold whitespace.
pub open spec fn skip_space(s: Seq<char>, i: nat) -> nat
    decreases s.len() - i,
{
    if i < s.len() && is_space_char(s[i as int]) {
        skip_space(s, i + 1)
    } else {
        i
    }
}

/// The end of the run of letters that starts at `i`.
pub open spec fn letters_end(s: Seq<char>, i: nat) -> nat
    decreases s.len() - i,
{
    if i < s.len() && is_letter_char(s[i as int]) {
        letters_end(s, i + 1)
    } else {
        i
    }
}

/// The end of the run of digits that starts at `i`.
pub open spec fn digits_end(s: Seq<char>, i: nat) -> nat
    decreases s.len() - i,
{
    if i < s.len() && is_digit_char(s[i as int]) {
        digits_end(s, i + 1)
    } else {
        i
    }
}

/// The first position at or after `i` that holds a double quote or NUL, or
/// the end of the source.
pub open spec fn string_end(s: Seq<char>, i: nat) -> nat
    decreases s.len() - i,
{
    if i < s.len() && s[i as int] != '"' && s[i as int] != '\0' {
        string_end(s, i + 1)
    } else {
        i
    }
}

/// The kind of a one-character punctuation token.
pub open spec fn punctuation_kind(c: char) -> Option<TokenKind> {
    if c == '+' {
        Some(TokenKind::PLUS)
    } else if c == '-' {
        Some(TokenKind::MINUS)
    } else if c == '*' {
        Some(TokenKind::ASTERISK)
    } else if c == '/' {
        Some(TokenKind::SLASH)
    } else if c == '<' {
        Some(TokenKind::LT)
    } else if c == '>' {
        Some(TokenKind::GT)
    } else if c == ';' {
        Some(TokenKind::SEMICOLON)
    } else if c == ':' {
        Some(TokenKind::COLON)
    } else if c == ',' {
        Some(TokenKind::COMMA)
    } else if c == '(' {
        Some(TokenKind::LPAREN)
    } else if c == ')' {
        Some(TokenKind::RPAREN)
    } else if c == '{' {
        Some(TokenKind::LBRACE)
    } else if c == '}' {
        Some(TokenKind::RBRACE)
    } else if c == '[' {
        Some(TokenKind::LBRACKET)
    } else if c == ']' {
        Some(TokenKind::RBRACKET)
    } else {
        None
    }
}

pub open spec fn mk_token(kind: TokenKind, literal: Seq<char>) -> SpecToken {
    SpecToken { kind, literal }
}

/// The token that scanning `s` from `pos` yields, and the position after it.
/// At the end of the source, or at a NUL character, this is `EOF`, and the
/// position stays where it is.
pub open spec fn lex_at(s: Seq<char>, pos: nat) -> (SpecToken, nat) {
    let q = skip_space(s, pos);
    let c = char_at(s, q as int);
    if q >= s.len() || c == '\0' {
        (mk_token(TokenKind::EOF, seq![]), q)
    } else if c == '=' {
        if char_at(s, q + 1int) == '=' {
            (mk_token(TokenKind::EQ, seq!['=', '=']), q + 2)
        } else {
            (mk_token(TokenKind::ASSIGN, seq!['=']), q + 1)
        }
    } else if c == '!' {
        if char_at(s, q + 1int) == '=' {
            (mk_token(TokenKind::NotEq, seq!['!', '=']), q + 2)
        } else {
            (mk_token(TokenKind::BANG, seq!['!']), q + 1)
        }
    } else if c == '"' {
        let j = string_end(s, q + 1);
        let next = if j < s.len() && s[j as int] == '"' { j + 1 } else { j };
        (mk_token(TokenKind::STRING, s.subrange(q + 1int, j as int)), next)
    } else if is_letter_char(c) {
        let j = letters_end(s, q);
        let word = s.subrange(q as int, j as int);
        (mk_token(keyword_kind(word), word), j)
    } else if is_digit_char(c) {
        let j = digits_end(s, q);
        (mk_token(TokenKind::INT, s.subrange(q as int, j as int)), j)
    } else {
        match punctuation_kind(c) {
            Some(k) => (mk_token(k, seq![c]), q + 1),
            None => (mk_token(TokenKind::ILLEGAL, seq![c]), q + 1),
        }
    }
}

proof fn lemma_scanners_bounded(s: Seq<char>, i: nat)
    requires
        i <= s.len(),
    ensures
        i <= skip_space(s, i) <= s.len(),
        i <= letters_end(s, i) <= s.len(),
        i <= digits_end(s, i) <= s.len(),
        i <= string_end(s, i) <= s.len(),
    decreases s.len() - i,
{
    if i < s.len() {
        lemma_scanners_bounded(s, i + 1);
    }
}

/// Scanning stays inside the source, and every token but `EOF` moves forward.
pub proof fn lemma_lex_advances(s: Seq<char>, pos: nat)
    requires
        pos <= s.len(),
    ensures
        lex_at(s, pos).1 <= s.len(),
        lex_at(s, pos).0.kind != TokenKind::EOF ==> pos < lex_at(s, pos).1,
        lex_at(s, pos).0.kind == TokenKind::EOF ==> lex_at(s, lex_at(s, pos).1) == lex_at(s, pos),
{
    let q = skip_space(s, pos);
    lemma_scanners_bounded(s, pos);
    lemma_scanners_bounded(s, q);
    if q < s.len() {
        lemma_scanners_bounded(s, q + 1);
    }
    if lex_at(s, pos).0.kind == TokenKind::EOF {
        lemma_skip_space_idempotent(s, pos);
    }
}

proof fn lemma_skip_space_idempotent(s: Seq<char>, i: nat)
    requires
        i <= s.len(),
    ensures
        skip_space(s, skip_space(s, i)) == skip_space(s, i),
    decreases s.len() - i,
{
    if i < s.len() && is_space_char(s[i as int]) {
        lemma_skip_space_idempotent(s, i + 1);
    }
}

/// Every token of `s` from `pos` on, up to and including the first `EOF`.
pub open spec fn tokens_from(s: Seq<char>, pos: nat) -> Seq<SpecToken>
    decreases s.len() - pos,
{
    let (t, next) = lex_at(s, pos);
    if t.kind == TokenKind::EOF || pos > s.len() {
        seq![t]
    } else {
        proof {
            lemma_lex_advances(s, pos);
        }
        seq![t] + tokens_from(s, next)
    }
}

/// The characters `s[from..to]` as a string.
fn substring(s: &Vec<char>, from: usize, to: usize) -> (r: String)
    requires
        from <= to <= s.len(),
    ensures
        r@ == s@.subrange(from as int, to as int),
{
    let mut out: Vec<char> = Vec::new();
    let mut i = from;
    while i < to
        invariant
            from <= i <= to <= s.len(),
            out@ == s@.subrange(from as int, i as int),
        decreases to - i,
    {
        out.push(s[i]);
        i = i + 1;
    }
    string_of(&out)
}

/// A scanner over a source text that hands out one token per call.
#[derive(Debug)]
pub struct Lexer {
    input: Vec<char>,
    position: usize,
}

impl Lexer {
    /// The source text being scanned.
    pub closed spec fn source(&self) -> Seq<char> {
        self.input@
    }

    /// The position from which the next token is scanned.
    pub closed spec fn pos(&self) -> nat {
        self.position as nat
    }

    pub closed spec fn wf(&self) -> bool {
        self.position <= self.input.len()
    }

    pub proof fn lemma_pos_bounded(&self)
        requires
            self.wf(),
        ensures
            self.pos() <= self.source().len(),
    {
    }

    /// A lexer at the start of `input`.
    pub fn new(input: &str) -> (r: Lexer)
        ensures
            r.wf(),
            r.source() == input@,
            r.pos() == 0,
    {
        Lexer { input: chars_of(input), position: 0 }
    }

    fn current(&self) -> (c: char)
        requires
            self.wf(),
        ensures
            c == char_at(self.input@, self.position as int),
    {
        if self.position < self.input.len() {
            self.input[self.position]
        } else {
            '\0'
        }
    }

    fn peek_char(&self) -> (c: char)
        requires
            self.wf(),
        ensures
            c == char_at(self.input@, self.position + 1),
    {
        if self.position < self.input.len() && self.input.len() - self.position > 1 {
            self.input[self.position + 1]
        } else {
            '\0'
        }
    }

    fn is_letter(ch: char) -> (r: bool)
        ensures
            r == is_letter_char(ch),
    {
        ('a' <= ch && ch <= 'z') || ('A' <= ch && ch <= 'Z') || ch == '_'
    }

    fn is_digit(ch: char) -> (r: bool)
        ensures
            r == is_digit_char(ch),
    {
        '0' <= ch && ch <= '9'
    }

    fn is_space(ch: char) -> (r: bool)
        ensures
            r == is_space_char(ch),
    {
        ch == ' ' || ch == '\t' || ch == '\n' || ch == '\r'
    }

    fn skip_whitespace(&mut self)
        requires
            old(self).wf(),
        ensures
            final(self).wf(),
            final(self).input == old(self).input,
            final(self).position == skip_space(old(self).input@, old(self).position as nat),
    {
        let ghost start = self.position as nat;
        while self.position < self.input.len() && Self::is_space(self.input[self.position])
            invariant
                self.wf(),
                self.input == old(self).input,
                start <= self.position,
                skip_space(self.input@, start) == skip_space(self.input@, self.position as nat),
            decreases self.input.len() - self.position,
        {
            self.position = self.position + 1;
        }
    }

    fn read_identifier(&mut self) -> (r: String)
        requires
            old(self).wf(),
        ensures
            final(self).wf(),
            final(self).input == old(self).input,
            final(self).position == letters_end(old(self).input@, old(self).position as nat),
            r@ == old(self).input@.subrange(old(self).position as int, final(self).position as int),
    {
        let start = self.position;
        while self.position < self.input.len() && Self::is_letter(self.input[self.position])
            invariant
                self.wf(),
                self.input == old(self).input,
                start <= self.position,
                letters_end(self.input@, start as nat) == letters_end(
                    self.input@,
                    self.position as nat,
                ),
            decreases self.input.len() - self.position,
        {
            self.position = self.position + 1;
        }
        substring(&self.input, start, self.position)
    }

    fn read_number(&mut self) -> (r: String)
        requires
            old(self).wf(),
        ensures
            final(self).wf(),
            final(self).input == old(self).input,
            final(self).position == digits_end(old(self).input@, old(self).position as nat),
            r@ == old(self).input@.subrange(old(self).position as int, final(self).position as int),
    {
        let start = self.position;
        while self.position < self.input.len() && Self::is_digit(self.input[self.position])
            invariant
                self.wf(),
                self.input == old(self).input,
                start <= self.position,
                digits_end(self.input@, start as nat) == digits_end(
                    self.input@,
                    self.position as nat,
                ),
            decreases self.input.len() - self.position,
        {
            self.position = self.position + 1;
        }
        substring(&self.input, start, self.position)
    }

    /// Reads a string body that starts at the current position and stops
    /// before the closing quote, a NUL, or the end of the source.
    fn read_string(&mut self) -> (r: String)
        requires
            old(self).wf(),
        ensures
            final(self).wf(),
            final(self).input == old(self).input,
            final(self).position == string_end(old(self).input@, old(self).position as nat),
            r@ == old(self).input@.subrange(old(self).position as int, final(self).position as int),
    {
        let start = self.position;
        while self.position < self.input.len() && self.input[self.position] != '"'
            && self.input[self.position] != '\0'
            invariant
                self.wf(),
                self.input == old(self).input,
                start <= self.position,
                string_end(self.input@, start as nat) == string_end(
                    self.input@,
                    self.position as nat,
                ),
            decreases self.input.len() - self.position,
        {
            self.position = self.position + 1;
        }
        substring(&self.input, start, self.position)
    }

    /// A token of one character.
    pub fn new_token(token_type: TokenKind, ch: char) -> (r: Token)
        ensures
            r@ == mk_token(token_type, seq![ch]),
    {
        let mut v: Vec<char> = Vec::new();
        v.push(ch);
        proof {
            assert(v@ =~= seq![ch]);
        }
        Token { token_type, literal: string_of(&v) }
    }

    /// Scans the next token; after the last one it returns `EOF` on every call.
    pub fn next_token(&mut self) -> (r: Token)
        requires
            old(self).wf(),
        ensures
            final(self).wf(),
            final(self).source() == old(self).source(),
            final(self).pos() <= final(self).source().len(),
            (r@, final(self).pos()) == lex_at(old(self).source(), old(self).pos()),
    {
        self.skip_whitespace();
        proof {
            lemma_scanners_bounded(self.input@, self.position as nat);
        }
        let c = self.current();
        if self.position >= self.input.len() || c == '\0' {
            return Token { token_type: TokenKind::EOF, literal: String::new() };
        }
        if c == '=' || c == '!' {
            let two = self.peek_char() == '=';
            let kind = if c == '=' {
                if two { TokenKind::EQ } else { TokenKind::ASSIGN }
            } else {
                if two { TokenKind::NotEq } else { TokenKind::BANG }
            };
            if two {
                let mut v: Vec<char> = Vec::new();
                v.push(c);
                v.push('=');
                self.position = self.position + 2;
                proof {
                    assert(v@ =~= seq![c, '=']);
                }
                return Token { token_type: kind, literal: string_of(&v) };
            } else {
                self.position = self.position + 1;
                return Self::new_token(kind, c);
            }
        }
        if c == '"' {
            self.position = self.position + 1;
            let body = self.read_string();
            if self.position < self.input.len() && self.input[self.position] == '"' {
                self.position = self.position + 1;
            }
            return Token { token_type: TokenKind::STRING, literal: body };
        }
        if Self::is_letter(c) {
            let word = self.read_identifier();
            let chars = chars_of(word.as_str());
            let kind = keyword_of(&chars);
            return Token { token_type: kind, literal: word };
        }
        if Self::is_digit(c) {
            let digits = self.read_number();
            return Token { token_type: TokenKind::INT, literal: digits };
        }
        let kind = match c {
            '+' => TokenKind::PLUS,
            '-' => TokenKind::MINUS,
            '*' => TokenKind::ASTERISK,
            '/' => TokenKind::SLASH,
            '<' => TokenKind::LT,
            '>' => TokenKind::GT,
            ';' => TokenKind::SEMICOLON,
            ':' => TokenKind::COLON,
            ',' => TokenKind::COMMA,
            '(' => TokenKind::LPAREN,
            ')' => TokenKind::RPAREN,
            '{' => TokenKind::LBRACE,
            '}' => TokenKind::RBRACE,
            '[' => TokenKind::LBRACKET,
            ']' => TokenKind::RBRACKET,
            _ => TokenKind::ILLEGAL,
        };
        self.position = self.position + 1;
        Self::new_token(kind, c)
    }
}

} // verus!

use vstd::prelude::*;

verus! {

/// The closed set of token kinds.
#[derive(Debug, Clone, Copy, PartialEq, Eq, Structural, Hash)]
pub enum TokenKind {
    ILLEGAL,
    EOF,
    IDENT,
    INT,
    STRING,
    ASSIGN,
    PLUS,
    MINUS,
    BANG,
    ASTERISK,
    SLASH,
    LT,
    GT,
    EQ,
    NotEq,
    COMMA,
    SEMICOLON,
    COLON,
    LPAREN,
    RPAREN,
    LBRACE,
    RBRACE,
    LBRACKET,
    RBRACKET,
    FUNCTION,
    LET,
    TRUE,
    FALSE,
    IF,
    ELSE,
    RETURN,
}

/// Binding strength of an operator position, weakest first.
#[derive(Debug, Clone, Copy, PartialEq, Eq, Structural)]
pub enum Precedence {
    LOWEST,
    EQUALS,
    LESSGREATER,
    SUM,
    PRODUCT,
    PREFIX,
    CALL,
    INDEX,
}

impl Precedence {
    pub open spec fn rank(self) -> nat {
        match self {
            Precedence::LOWEST => 0,
            Precedence::EQUALS => 1,
            Precedence::LESSGREATER => 2,
            Precedence::SUM => 3,
            Precedence::PRODUCT => 4,
            Precedence::PREFIX => 5,
            Precedence::CALL => 6,
            Precedence::INDEX => 7,
        }
    }

    /// The position of this precedence in the total order.
    pub fn level(self) -> (r: u8)
        ensures
            r as nat == self.rank(),
    {
        match self {
            Precedence::LOWEST => 0,
            Precedence::EQUALS => 1,
            Precedence::LESSGREATER => 2,
            Precedence::SUM => 3,
            Precedence::PRODUCT => 4,
            Precedence::PREFIX => 5,
            Precedence::CALL => 6,
            Precedence::INDEX => 7,
        }
    }
}

/// The infix precedence of a token kind; kinds that never stand between two
/// operands bind as weakly as possible.
pub open spec fn precedence_of(kind: TokenKind) -> Precedence {
    match kind {
        TokenKind::EQ | TokenKind::NotEq => Precedence::EQUALS,
        TokenKind::LT | TokenKind::GT => Precedence::LESSGREATER,
        TokenKind::PLUS | TokenKind::MINUS => Precedence::SUM,
        TokenKind::ASTERISK | TokenKind::SLASH => Precedence::PRODUCT,
        TokenKind::LPAREN => Precedence::CALL,
        TokenKind::LBRACKET => Precedence::INDEX,
        _ => Precedence::LOWEST,
    }
}

/// The kind of a word: one of the keywords, or an identifier.
pub open spec fn keyword_kind(word: Seq<char>) -> TokenKind {
    if word == seq!['l', 'e', 't'] {
        TokenKind::LET
    } else if word == seq!['f', 'n'] {
        TokenKind::FUNCTION
    } else if word == seq!['t', 'r', 'u', 'e'] {
        TokenKind::TRUE
    } else if word == seq!['f', 'a', 'l', 's', 'e'] {
        TokenKind::FALSE
    } else if word == seq!['i', 'f'] {
        TokenKind::IF
    } else if word == seq!['e', 'l', 's', 'e'] {
        TokenKind::ELSE
    } else if word == seq!['r', 'e', 't', 'u', 'r', 'n'] {
        TokenKind::RETURN
    } else {
        TokenKind::IDENT
    }
}

/// Whether `word` spells exactly the characters of `lit`.
pub fn spells(word: &Vec<char>, lit: &[char]) -> (r: bool)
    ensures
        r == (word@ == lit@),
{
    if word.len() != lit.len() {
        return false;
    }
    let mut i: usize = 0;
    while i < word.len()
        invariant
            word.len() == lit@.len(),
            i <= word.len(),
            forall|j: int| 0 <= j < i ==> word@[j] == lit@[j],
        decreases word.len() - i,
    {
        if word[i] != lit[i] {
            return false;
        }
        i = i + 1;
    }
    assert(word@ =~= lit@);
    true
}

/// The kind of a word held as characters.
pub fn keyword_of(word: &Vec<char>) -> (r: TokenKind)
    ensures
        r == keyword_kind(word@),
{
    if spells(word, &['l', 'e', 't']) {
        TokenKind::LET
    } else if spells(word, &['f', 'n']) {
        TokenKind::FUNCTION
    } else if spells(word, &['t', 'r', 'u', 'e']) {
        TokenKind::TRUE
    } else if spells(word, &['f', 'a', 'l', 's', 'e']) {
        TokenKind::FALSE
    } else if spells(word, &['i', 'f']) {
        TokenKind::IF
    } else if spells(word, &['e', 'l', 's', 'e']) {
        TokenKind::ELSE
    } else if spells(word, &['r', 'e', 't', 'u', 'r', 'n']) {
        TokenKind::RETURN
    } else {
        TokenKind::IDENT
    }
}

/// The characters of a string slice, in order.
pub fn chars_of(s: &str) -> (r: Vec<char>)
    ensures
        r@ == s@,
{
    let mut out: Vec<char> = Vec::new();
    for c in it: s.chars()
        invariant
            out@ == it.seq().take(it.index() as int),
    {
        out.push(c);
    }
    out
}

/// The kind of a word: a keyword's own kind, otherwise `IDENT`.
pub fn get_keyword(ident: &str) -> (r: TokenKind)
    ensures
        r == keyword_kind(ident@),
{
    let word = chars_of(ident);
    keyword_of(&word)
}

/// The model of a token: its kind and the exact source text it came from.
pub struct SpecToken {
    pub kind: TokenKind,
    pub literal: Seq<char>,
}

/// A token: its kind and its literal source slice.
#[derive(Debug)]
pub struct Token {
    pub token_type: TokenKind,
    pub literal: String,
}

impl View for Token {
    type V = SpecToken;

    open spec fn view(&self) -> SpecToken {
        SpecToken { kind: self.token_type, literal: self.literal@ }
    }
}

impl Token {
    /// The infix precedence of this token's kind.
    pub fn get_precedence(&self) -> (r: Precedence)
        ensures
            r == precedence_of(self.token_type),
    {
        match self.token_type {
            TokenKind::EQ => Precedence::EQUALS,
            TokenKind::NotEq => Precedence::EQUALS,
            TokenKind::LT => Precedence::LESSGREATER,
            TokenKind::GT => Precedence::LESSGREATER,
            TokenKind::PLUS => Precedence::SUM,
            TokenKind::MINUS => Precedence::SUM,
            TokenKind::SLASH => Precedence::PRODUCT,
            TokenKind::ASTERISK => Precedence::PRODUCT,
            TokenKind::LPAREN => Precedence::CALL,
            TokenKind::LBRACKET => Precedence::INDEX,
            _ => Precedence::LOWEST,
        }
    }

    /// A copy of this token.
    pub fn duplicate(&self) -> (r: Token)
        ensures
            r == *self,
    {
        Token { token_type: self.token_type, literal: self.literal.clone() }
    }
}

} // verus!

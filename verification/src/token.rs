//! The token model: the closed set of lexical categories, and the token
//! value carrying the exact source text that produced it.

use vstd::prelude::*;

verus! {

/// The closed enumeration of lexical categories.
#[derive(Debug, Clone, Copy, PartialEq, Eq, Structural)]
pub enum TokenType {
    Illegal,
    EOF,
    Ident,
    Int,
    Assign,
    Plus,
    Minus,
    Bang,
    Asterisk,
    Slash,
    LT,
    GT,
    Comma,
    SemiColon,
    LParen,
    RParen,
    LBrace,
    RBrace,
    Eq,
    NotEq,
    Function,
    Let,
    True,
    False,
    If,
    Else,
    Return,
}

/// The mathematical value of a token: its category together with the
/// sequence of characters of its literal.
pub ghost struct SpecToken {
    pub kind: TokenType,
    pub text: Seq<char>,
}

/// A token: a classified unit of source text. `literal` is the verbatim
/// source substring that produced the token. Equality is structural.
#[derive(Debug, Clone, PartialEq, Eq)]
pub struct Token {
    pub token_type: TokenType,
    pub literal: String,
}

impl View for Token {
    type V = SpecToken;

    open spec fn view(&self) -> SpecToken {
        SpecToken { kind: self.token_type, text: self.literal@ }
    }
}

/// The keyword table as a mathematical function: the category of an
/// identifier-shaped literal. Every literal that is not one of the seven
/// keywords classifies as a generic identifier.
pub open spec fn keyword_kind(s: Seq<char>) -> TokenType {
    if s == "fn"@ {
        TokenType::Function
    } else if s == "let"@ {
        TokenType::Let
    } else if s == "true"@ {
        TokenType::True
    } else if s == "false"@ {
        TokenType::False
    } else if s == "if"@ {
        TokenType::If
    } else if s == "else"@ {
        TokenType::Else
    } else if s == "return"@ {
        TokenType::Return
    } else {
        TokenType::Ident
    }
}

/// Character-by-character equality of two string slices.
fn str_eq(a: &str, b: &str) -> (r: bool)
    ensures
        r == (a@ == b@),
{
    let n = a.unicode_len();
    let m = b.unicode_len();
    if n != m {
        return false;
    }
    let mut i: usize = 0;
    while i < n
        invariant
            n == a@.len(),
            n == b@.len(),
            0 <= i <= n,
            forall|k: int| 0 <= k < i ==> a@[k] == b@[k],
        decreases n - i,
    {
        if a.get_char(i) != b.get_char(i) {
            return false;
        }
        i = i + 1;
    }
    proof {
        assert(a@ =~= b@);
    }
    true
}

impl Token {
    pub fn new(token_type: TokenType, literal: String) -> (t: Token)
        ensures
            t@ == (SpecToken { kind: token_type, text: literal@ }),
    {
        Token { token_type, literal }
    }

    /// Classify an identifier-shaped literal against the fixed keyword table.
    pub fn lookup_indent(ident: &str) -> (t: TokenType)
        ensures
            t == keyword_kind(ident@),
    {
        if str_eq(ident, "fn") {
            TokenType::Function
        } else if str_eq(ident, "let") {
            TokenType::Let
        } else if str_eq(ident, "true") {
            TokenType::True
        } else if str_eq(ident, "false") {
            TokenType::False
        } else if str_eq(ident, "if") {
            TokenType::If
        } else if str_eq(ident, "else") {
            TokenType::Else
        } else if str_eq(ident, "return") {
            TokenType::Return
        } else {
            TokenType::Ident
        }
    }
}

} // verus!

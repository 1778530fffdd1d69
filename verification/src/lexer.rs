//! The tokenizer: a cursor over the source text that produces tokens one at
//! a time, together with the mathematical model of tokenization that its
//! contracts are stated against.

use vstd::prelude::*;

use crate::token::SpecToken;
use crate::token::Token;
use crate::token::TokenType;
use crate::token::keyword_kind;
use vstd::string::StrSliceExecFns;

verus! {

/// The whitespace characters skipped between tokens.
pub open spec fn is_whitespace_char(c: char) -> bool {
    c == ' ' || c == '\t' || c == '\n' || c == '\r'
}

/// The characters that may begin an identifier: letters and underscore.
pub open spec fn is_letter_char(c: char) -> bool {
    ('a' <= c && c <= 'z') || ('A' <= c && c <= 'Z') || c == '_'
}

/// The decimal digits.
pub open spec fn is_digit_char(c: char) -> bool {
    '0' <= c && c <= '9'
}

/// The characters that may continue an identifier: letters, digits and
/// underscore.
pub open spec fn is_ident_char(c: char) -> bool {
    is_letter_char(c) || is_digit_char(c)
}

/// Index of the first non-whitespace character at or after `i`.
pub open spec fn skip_ws(s: Seq<char>, i: int) -> int
    decreases s.len() - i
        when 0 <= i <= s.len()
{
    if i < s.len() && is_whitespace_char(s[i]) {
        skip_ws(s, i + 1)
    } else {
        i
    }
}

pub proof fn lemma_skip_ws_bounds(s: Seq<char>, i: int)
    requires
        0 <= i <= s.len(),
    ensures
        i <= skip_ws(s, i) <= s.len(),
        skip_ws(s, i) < s.len() ==> !is_whitespace_char(s[skip_ws(s, i)]),
        forall|k: int| i <= k < skip_ws(s, i) ==> is_whitespace_char(s[k]),
    decreases s.len() - i,
{
    if i < s.len() && is_whitespace_char(s[i]) {
        lemma_skip_ws_bounds(s, i + 1);
    }
}

/// End of the maximal run of identifier characters starting at `i`.
pub open spec fn ident_end(s: Seq<char>, i: int) -> int
    decreases s.len() - i
        when 0 <= i <= s.len()
{
    if i < s.len() && is_ident_char(s[i]) {
        ident_end(s, i + 1)
    } else {
        i
    }
}

pub proof fn lemma_ident_end_bounds(s: Seq<char>, i: int)
    requires
        0 <= i <= s.len(),
    ensures
        i <= ident_end(s, i) <= s.len(),
        ident_end(s, i) < s.len() ==> !is_ident_char(s[ident_end(s, i)]),
        forall|k: int| i <= k < ident_end(s, i) ==> is_ident_char(s[k]),
    decreases s.len() - i,
{
    if i < s.len() && is_ident_char(s[i]) {
        lemma_ident_end_bounds(s, i + 1);
    }
}

/// End of the maximal run of decimal digits starting at `i`.
pub open spec fn digits_end(s: Seq<char>, i: int) -> int
    decreases s.len() - i
        when 0 <= i <= s.len()
{
    if i < s.len() && is_digit_char(s[i]) {
        digits_end(s, i + 1)
    } else {
        i
    }
}

pub proof fn lemma_digits_end_bounds(s: Seq<char>, i: int)
    requires
        0 <= i <= s.len(),
    ensures
        i <= digits_end(s, i) <= s.len(),
        digits_end(s, i) < s.len() ==> !is_digit_char(s[digits_end(s, i)]),
        forall|k: int| i <= k < digits_end(s, i) ==> is_digit_char(s[k]),
    decreases s.len() - i,
{
    if i < s.len() && is_digit_char(s[i]) {
        lemma_digits_end_bounds(s, i + 1);
    }
}

/// Index one past the end of the token that starts at position `i`
/// (meaningful when `i` is in range and `s[i]` is not whitespace).
pub open spec fn token_end(s: Seq<char>, i: int) -> int {
    let c = s[i];
    if c == '=' || c == '!' {
        if i + 1 < s.len() && s[i + 1] == '=' {
            i + 2
        } else {
            i + 1
        }
    } else if is_letter_char(c) {
        ident_end(s, i)
    } else if is_digit_char(c) {
        digits_end(s, i)
    } else {
        i + 1
    }
}

/// The category of the token that starts at position `i`.
pub open spec fn token_kind(s: Seq<char>, i: int) -> TokenType {
    let c = s[i];
    if c == '=' {
        if i + 1 < s.len() && s[i + 1] == '=' {
            TokenType::Eq
        } else {
            TokenType::Assign
        }
    } else if c == '!' {
        if i + 1 < s.len() && s[i + 1] == '=' {
            TokenType::NotEq
        } else {
            TokenType::Bang
        }
    } else if c == ';' {
        TokenType::SemiColon
    } else if c == '(' {
        TokenType::LParen
    } else if c == ')' {
        TokenType::RParen
    } else if c == ',' {
        TokenType::Comma
    } else if c == '+' {
        TokenType::Plus
    } else if c == '-' {
        TokenType::Minus
    } else if c == '*' {
        TokenType::Asterisk
    } else if c == '/' {
        TokenType::Slash
    } else if c == '<' {
        TokenType::LT
    } else if c == '>' {
        TokenType::GT
    } else if c == '{' {
        TokenType::LBrace
    } else if c == '}' {
        TokenType::RBrace
    } else if is_letter_char(c) {
        keyword_kind(s.subrange(i, ident_end(s, i)))
    } else if is_digit_char(c) {
        TokenType::Int
    } else {
        TokenType::Illegal
    }
}

/// The token that starts at position `i`: its category and its literal,
/// which is always the verbatim slice of the source that the token covers.
pub open spec fn token_at(s: Seq<char>, i: int) -> SpecToken {
    SpecToken { kind: token_kind(s, i), text: s.subrange(i, token_end(s, i)) }
}

pub proof fn lemma_token_end_bounds(s: Seq<char>, i: int)
    requires
        0 <= i < s.len(),
    ensures
        i + 1 <= token_end(s, i) <= s.len(),
{
    lemma_ident_end_bounds(s, i);
    lemma_digits_end_bounds(s, i);
}

/// The token sequence of the source from position `i` on: skip whitespace,
/// and if any character remains scan one token and continue after it.
pub open spec fn tokens_from(s: Seq<char>, i: int) -> Seq<SpecToken>
    decreases s.len() - i
        when 0 <= i <= s.len()
        via tokens_from_decreases
{
    let j = skip_ws(s, i);
    if j >= s.len() {
        Seq::empty()
    } else {
        seq![token_at(s, j)] + tokens_from(s, token_end(s, j))
    }
}

#[via_fn]
proof fn tokens_from_decreases(s: Seq<char>, i: int) {
    lemma_skip_ws_bounds(s, i);
    if skip_ws(s, i) < s.len() {
        lemma_token_end_bounds(s, skip_ws(s, i));
    }
}

/// The token sequence of a complete source text, in input order.
pub open spec fn tokenize(s: Seq<char>) -> Seq<SpecToken> {
    tokens_from(s, 0)
}

/// The characters that form a single-character token on their own,
/// without lookahead.
pub open spec fn is_punct_char(c: char) -> bool {
    c == ';' || c == '(' || c == ')' || c == ',' || c == '+' || c == '-' || c == '*' || c == '/'
        || c == '<' || c == '>' || c == '{' || c == '}'
}

/// The category of a single-character token.
pub open spec fn punct_kind(c: char) -> TokenType {
    if c == ';' {
        TokenType::SemiColon
    } else if c == '(' {
        TokenType::LParen
    } else if c == ')' {
        TokenType::RParen
    } else if c == ',' {
        TokenType::Comma
    } else if c == '+' {
        TokenType::Plus
    } else if c == '-' {
        TokenType::Minus
    } else if c == '*' {
        TokenType::Asterisk
    } else if c == '/' {
        TokenType::Slash
    } else if c == '<' {
        TokenType::LT
    } else if c == '>' {
        TokenType::GT
    } else if c == '{' {
        TokenType::LBrace
    } else {
        TokenType::RBrace
    }
}

proof fn lemma_punctuation_run(s: Seq<char>, i: int)
    requires
        0 <= i <= s.len(),
        forall|k: int| i <= k < s.len() ==> is_punct_char(s[k]),
    ensures
        tokens_from(s, i).len() == s.len() - i,
        forall|k: int|
            i <= k < s.len() ==> tokens_from(s, i)[k - i] == (SpecToken {
                kind: punct_kind(s[k]),
                text: seq![s[k]],
            }),
    decreases s.len() - i,
{
    if i < s.len() {
        assert(skip_ws(s, i) == i);
        assert(token_end(s, i) == i + 1);
        assert(s.subrange(i, i + 1) =~= seq![s[i]]);
        lemma_punctuation_run(s, i + 1);
    }
}

/// A source composed solely of single-character punctuation yields exactly
/// one token per character, each of the corresponding kind, with a literal
/// equal to that character, in input order.
pub proof fn lemma_punctuation_tokens(s: Seq<char>)
    requires
        forall|k: int| 0 <= k < s.len() ==> is_punct_char(s[k]),
    ensures
        tokenize(s).len() == s.len(),
        forall|k: int|
            0 <= k < s.len() ==> tokenize(s)[k] == (SpecToken {
                kind: punct_kind(s[k]),
                text: seq![s[k]],
            }),
{
    lemma_punctuation_run(s, 0);
}

/// The source text with its whitespace characters removed.
pub open spec fn strip_ws(s: Seq<char>) -> Seq<char>
    decreases s.len(),
{
    if s.len() == 0 {
        Seq::empty()
    } else if is_whitespace_char(s[0]) {
        strip_ws(s.drop_first())
    } else {
        seq![s[0]] + strip_ws(s.drop_first())
    }
}

/// The concatenation of the literals of a token sequence.
pub open spec fn literal_concat(ts: Seq<SpecToken>) -> Seq<char>
    decreases ts.len(),
{
    if ts.len() == 0 {
        Seq::empty()
    } else {
        ts[0].text + literal_concat(ts.drop_first())
    }
}

proof fn lemma_strip_ws_skip(s: Seq<char>, i: int, j: int)
    requires
        0 <= i <= j <= s.len(),
        forall|k: int| i <= k < j ==> is_whitespace_char(s[k]),
    ensures
        strip_ws(s.subrange(i, s.len() as int)) == strip_ws(s.subrange(j, s.len() as int)),
    decreases j - i,
{
    if i < j {
        assert(s.subrange(i, s.len() as int).drop_first() =~= s.subrange(i + 1, s.len() as int));
        lemma_strip_ws_skip(s, i + 1, j);
    }
}

proof fn lemma_strip_ws_solid(s: Seq<char>, i: int, j: int)
    requires
        0 <= i <= j <= s.len(),
        forall|k: int| i <= k < j ==> !is_whitespace_char(s[k]),
    ensures
        strip_ws(s.subrange(i, s.len() as int)) == s.subrange(i, j) + strip_ws(
            s.subrange(j, s.len() as int),
        ),
    decreases j - i,
{
    if i == j {
        assert(s.subrange(i, j) =~= Seq::<char>::empty());
        assert(s.subrange(i, j) + strip_ws(s.subrange(j, s.len() as int)) =~= strip_ws(
            s.subrange(j, s.len() as int),
        ));
    } else {
        assert(s.subrange(i, s.len() as int).drop_first() =~= s.subrange(i + 1, s.len() as int));
        lemma_strip_ws_solid(s, i + 1, j);
        assert(s.subrange(i, j) =~= seq![s[i]] + s.subrange(i + 1, j));
        assert(seq![s[i]] + (s.subrange(i + 1, j) + strip_ws(s.subrange(j, s.len() as int)))
            =~= s.subrange(i, j) + strip_ws(s.subrange(j, s.len() as int)));
    }
}

proof fn lemma_token_no_ws(s: Seq<char>, i: int)
    requires
        0 <= i < s.len(),
        !is_whitespace_char(s[i]),
    ensures
        forall|k: int| i <= k < token_end(s, i) ==> !is_whitespace_char(s[k]),
{
    lemma_ident_end_bounds(s, i);
    lemma_digits_end_bounds(s, i);
}

proof fn lemma_literal_cover(s: Seq<char>, i: int)
    requires
        0 <= i <= s.len(),
    ensures
        literal_concat(tokens_from(s, i)) == strip_ws(s.subrange(i, s.len() as int)),
    decreases s.len() - i,
{
    lemma_skip_ws_bounds(s, i);
    let j = skip_ws(s, i);
    lemma_strip_ws_skip(s, i, j);
    if j >= s.len() {
        assert(s.subrange(j, s.len() as int) =~= Seq::<char>::empty());
    } else {
        lemma_token_end_bounds(s, j);
        let e = token_end(s, j);
        lemma_token_no_ws(s, j);
        lemma_strip_ws_solid(s, j, e);
        lemma_literal_cover(s, e);
        let ts = tokens_from(s, i);
        assert(ts == seq![token_at(s, j)] + tokens_from(s, e));
        assert(ts.drop_first() =~= tokens_from(s, e));
        assert(literal_concat(ts) == s.subrange(j, e) + literal_concat(tokens_from(s, e)));
    }
}

/// Concatenating the literals of all tokens, in order, reproduces exactly
/// the non-whitespace content of the source.
pub proof fn lemma_tokens_cover_source(s: Seq<char>)
    ensures
        literal_concat(tokenize(s)) == strip_ws(s),
{
    lemma_literal_cover(s, 0);
    assert(s.subrange(0, s.len() as int) =~= s);
}

/// A letter-starting run of letters, digits and underscores is a single
/// token whose literal is the whole run, classified against the keyword
/// table; in particular a digit inside such a run is absorbed into the
/// identifier rather than split into a number token.
pub proof fn lemma_word_run(s: Seq<char>)
    requires
        s.len() > 0,
        is_letter_char(s[0]),
        forall|k: int| 0 <= k < s.len() ==> is_ident_char(s[k]),
    ensures
        tokenize(s) =~= seq![SpecToken { kind: keyword_kind(s), text: s }],
{
    assert(skip_ws(s, 0) == 0);
    lemma_ident_end_bounds(s, 0);
    assert(ident_end(s, 0) == s.len());
    assert(s.subrange(0, s.len() as int) =~= s);
    assert(tokens_from(s, s.len() as int) =~= Seq::<SpecToken>::empty());
}

/// The seven keyword literals classify as their keyword kinds, and every
/// other literal classifies as a generic identifier, regardless of length.
pub proof fn lemma_keyword_classification()
    ensures
        keyword_kind("fn"@) == TokenType::Function,
        keyword_kind("let"@) == TokenType::Let,
        keyword_kind("true"@) == TokenType::True,
        keyword_kind("false"@) == TokenType::False,
        keyword_kind("if"@) == TokenType::If,
        keyword_kind("else"@) == TokenType::Else,
        keyword_kind("return"@) == TokenType::Return,
        forall|s: Seq<char>|
            s != "fn"@ && s != "let"@ && s != "true"@ && s != "false"@ && s != "if"@ && s
                != "else"@ && s != "return"@ ==> #[trigger] keyword_kind(s) == TokenType::Ident,
{
    reveal_strlit("fn");
    reveal_strlit("let");
    reveal_strlit("true");
    reveal_strlit("false");
    reveal_strlit("if");
    reveal_strlit("else");
    reveal_strlit("return");
    assert("fn"@.len() == 2);
    assert("let"@.len() == 3);
    assert("true"@.len() == 4);
    assert("false"@.len() == 5);
    assert("if"@.len() == 2);
    assert("else"@.len() == 4);
    assert("return"@.len() == 6);
    assert("fn"@[0] == 'f' && "if"@[0] == 'i');
    assert("true"@[0] == 't' && "else"@[0] == 'e');
}

/// A maximal run of decimal digits is exactly one `integer` token whose
/// literal is the whole run.
pub proof fn lemma_digit_run(s: Seq<char>)
    requires
        s.len() > 0,
        forall|k: int| 0 <= k < s.len() ==> is_digit_char(s[k]),
    ensures
        tokenize(s) =~= seq![SpecToken { kind: TokenType::Int, text: s }],
{
    assert(skip_ws(s, 0) == 0);
    lemma_digits_end_bounds(s, 0);
    assert(digits_end(s, 0) == s.len());
    assert(s.subrange(0, s.len() as int) =~= s);
    assert(tokens_from(s, s.len() as int) =~= Seq::<SpecToken>::empty());
}

/// The scanner never produces a token of the end-of-input kind: that kind
/// is reserved for the absence of a token.
pub proof fn lemma_tokens_from_no_eof(s: Seq<char>, i: int)
    requires
        0 <= i <= s.len(),
    ensures
        forall|k: int|
            0 <= k < tokens_from(s, i).len() ==> #[trigger] tokens_from(s, i)[k].kind
                != TokenType::EOF,
    decreases s.len() - i,
{
    lemma_skip_ws_bounds(s, i);
    let j = skip_ws(s, i);
    if j < s.len() {
        lemma_token_end_bounds(s, j);
        lemma_tokens_from_no_eof(s, token_end(s, j));
        assert(token_kind(s, j) != TokenType::EOF);
        assert forall|k: int| 0 <= k < tokens_from(s, i).len() implies #[trigger] tokens_from(
            s,
            i,
        )[k].kind != TokenType::EOF by {
            if k > 0 {
                assert(tokens_from(s, i)[k] == tokens_from(s, token_end(s, j))[k - 1]);
            }
        }
    }
}

fn is_letter(ch: char) -> (r: bool)
    ensures
        r == is_letter_char(ch),
{
    ('a' <= ch && ch <= 'z') || ('A' <= ch && ch <= 'Z') || ch == '_'
}

fn is_digit(ch: char) -> (r: bool)
    ensures
        r == is_digit_char(ch),
{
    '0' <= ch && ch <= '9'
}

fn is_whitespace(ch: char) -> (r: bool)
    ensures
        r == is_whitespace_char(ch),
{
    ch == ' ' || ch == '\t' || ch == '\n' || ch == '\r'
}

/// The tokenizer cursor: the source text, the positions of the current and
/// next character (in characters, not bytes), and the current character,
/// with `'\0'` as the sentinel for "past end of input".
pub struct Lexer {
    input: String,
    chars: Vec<char>,
    position: usize,
    read_position: usize,
    ch: char,
}

impl Lexer {
    /// The source text as a sequence of characters.
    pub closed spec fn src(self) -> Seq<char> {
        self.input@
    }

    /// The position of the current character.
    pub closed spec fn pos(self) -> int {
        self.position as int
    }

    /// Cursor well-formedness: the character cache matches the source, the
    /// read position is one past the current position until the end is
    /// reached, and the current character is the one at the current
    /// position, or the sentinel past the end.
    pub closed spec fn wf(self) -> bool {
        &&& self.chars@ == self.input@
        &&& 0 <= self.pos() <= self.src().len()
        &&& self.read_position as int == (if self.pos() < self.src().len() {
            self.pos() + 1
        } else {
            self.src().len() as int
        })
        &&& self.ch == (if self.pos() < self.src().len() {
            self.src()[self.pos()]
        } else {
            '\0'
        })
    }

    /// The tokens not yet produced.
    pub open spec fn remaining(self) -> Seq<SpecToken> {
        tokens_from(self.src(), self.pos())
    }

    /// Construct a tokenizer over a complete source string, positioned at
    /// its first character.
    pub fn new(input: String) -> (l: Lexer)
        ensures
            l.wf(),
            l.src() == input@,
            l.remaining() == tokenize(input@),
    {
        let s = input.as_str();
        let n = s.unicode_len();
        let mut chars: Vec<char> = Vec::new();
        let mut i: usize = 0;
        while i < n
            invariant
                n == s@.len(),
                s@ == input@,
                0 <= i <= n,
                chars@ =~= input@.subrange(0, i as int),
            decreases n - i,
        {
            chars.push(s.get_char(i));
            i = i + 1;
        }
        proof {
            assert(chars@ =~= input@);
        }
        let ch = if chars.len() > 0 {
            chars[0]
        } else {
            '\0'
        };
        let read_position: usize = if chars.len() > 0 {
            1
        } else {
            0
        };
        Lexer { input, chars, position: 0, read_position, ch }
    }

    /// Advance the cursor by one character.
    fn read_char(&mut self)
        requires
            old(self).wf(),
            old(self).pos() < old(self).src().len(),
        ensures
            final(self).wf(),
            final(self).input == old(self).input,
            final(self).chars == old(self).chars,
            final(self).pos() == old(self).pos() + 1,
    {
        self.position = self.read_position;
        if self.read_position < self.chars.len() {
            self.ch = self.chars[self.read_position];
            self.read_position = self.read_position + 1;
        } else {
            self.ch = '\0';
        }
    }

    /// The character one past the current one, without advancing.
    fn peek_char(&self) -> (c: char)
        requires
            self.wf(),
        ensures
            c == (if self.pos() + 1 < self.src().len() {
                self.src()[self.pos() + 1]
            } else {
                '\0'
            }),
    {
        if self.read_position < self.chars.len() {
            self.chars[self.read_position]
        } else {
            '\0'
        }
    }

    /// Skip the run of whitespace characters before the next token.
    fn skip_whitespace(&mut self)
        requires
            old(self).wf(),
        ensures
            final(self).wf(),
            final(self).input == old(self).input,
            final(self).chars == old(self).chars,
            final(self).pos() == skip_ws(old(self).src(), old(self).pos()),
    {
        while self.position < self.chars.len() && is_whitespace(self.ch)
            invariant
                self.wf(),
                self.input == old(self).input,
                self.chars == old(self).chars,
                skip_ws(self.src(), self.pos()) == skip_ws(old(self).src(), old(self).pos()),
            decreases self.src().len() - self.pos(),
        {
            self.read_char();
        }
    }

    /// Consume the maximal run of identifier characters and return its
    /// literal text.
    fn read_identifier(&mut self) -> (lit: String)
        requires
            old(self).wf(),
            old(self).pos() < old(self).src().len(),
            is_ident_char(old(self).src()[old(self).pos()]),
        ensures
            final(self).wf(),
            final(self).input == old(self).input,
            final(self).chars == old(self).chars,
            final(self).pos() == ident_end(old(self).src(), old(self).pos()),
            lit@ == old(self).src().subrange(old(self).pos(), final(self).pos()),
    {
        let start = self.position;
        while self.position < self.chars.len() && (is_letter(self.ch) || is_digit(self.ch))
            invariant
                self.wf(),
                self.input == old(self).input,
                self.chars == old(self).chars,
                old(self).pos() <= self.pos(),
                ident_end(self.src(), self.pos()) == ident_end(old(self).src(), old(self).pos()),
            decreases self.src().len() - self.pos(),
        {
            self.read_char();
        }
        self.input.as_str().substring_char(start, self.position).to_owned()
    }

    /// Consume the maximal run of decimal digits and return its literal
    /// text.
    fn read_number(&mut self) -> (lit: String)
        requires
            old(self).wf(),
            old(self).pos() < old(self).src().len(),
            is_digit_char(old(self).src()[old(self).pos()]),
        ensures
            final(self).wf(),
            final(self).input == old(self).input,
            final(self).chars == old(self).chars,
            final(self).pos() == digits_end(old(self).src(), old(self).pos()),
            lit@ == old(self).src().subrange(old(self).pos(), final(self).pos()),
    {
        let start = self.position;
        while self.position < self.chars.len() && is_digit(self.ch)
            invariant
                self.wf(),
                self.input == old(self).input,
                self.chars == old(self).chars,
                old(self).pos() <= self.pos(),
                digits_end(self.src(), self.pos()) == digits_end(old(self).src(), old(self).pos()),
            decreases self.src().len() - self.pos(),
        {
            self.read_char();
        }
        self.input.as_str().substring_char(start, self.position).to_owned()
    }

    /// Produce the next token, or `None` once the end of the input is
    /// reached. Tokens come in left-to-right order; each call consumes
    /// exactly the whitespace before the token and the token's own
    /// characters.
    pub fn next_token(&mut self) -> (r: Option<Token>)
        requires
            old(self).wf(),
        ensures
            final(self).wf(),
            final(self).src() == old(self).src(),
            old(self).remaining().len() == 0 ==> r is None && final(self).remaining()
                == old(self).remaining(),
            old(self).remaining().len() > 0 ==> (r matches Some(t) && t@ == old(
                self,
            ).remaining()[0]) && final(self).remaining() == old(self).remaining().drop_first(),
    {
        proof {
            lemma_skip_ws_bounds(old(self).src(), old(self).pos());
        }
        self.skip_whitespace();
        let ghost s = self.src();
        let ghost j = self.pos();
        if self.position == self.chars.len() {
            return None;
        }
        proof {
            lemma_token_end_bounds(s, j);
            assert(tokens_from(s, old(self).pos()) == seq![token_at(s, j)] + tokens_from(
                s,
                token_end(s, j),
            ));
        }
        let start = self.position;
        let c = self.ch;
        let kind: TokenType;
        if c == '=' {
            if self.peek_char() == '=' {
                self.read_char();
                self.read_char();
                kind = TokenType::Eq;
            } else {
                self.read_char();
                kind = TokenType::Assign;
            }
        } else if c == '!' {
            if self.peek_char() == '=' {
                self.read_char();
                self.read_char();
                kind = TokenType::NotEq;
            } else {
                self.read_char();
                kind = TokenType::Bang;
            }
        } else if c == ';' {
            self.read_char();
            kind = TokenType::SemiColon;
        } else if c == '(' {
            self.read_char();
            kind = TokenType::LParen;
        } else if c == ')' {
            self.read_char();
            kind = TokenType::RParen;
        } else if c == ',' {
            self.read_char();
            kind = TokenType::Comma;
        } else if c == '+' {
            self.read_char();
            kind = TokenType::Plus;
        } else if c == '-' {
            self.read_char();
            kind = TokenType::Minus;
        } else if c == '*' {
            self.read_char();
            kind = TokenType::Asterisk;
        } else if c == '/' {
            self.read_char();
            kind = TokenType::Slash;
        } else if c == '<' {
            self.read_char();
            kind = TokenType::LT;
        } else if c == '>' {
            self.read_char();
            kind = TokenType::GT;
        } else if c == '{' {
            self.read_char();
            kind = TokenType::LBrace;
        } else if c == '}' {
            self.read_char();
            kind = TokenType::RBrace;
        } else if is_letter(c) {
            let lit = self.read_identifier();
            let k = Token::lookup_indent(lit.as_str());
            return Some(Token::new(k, lit));
        } else if is_digit(c) {
            let lit = self.read_number();
            return Some(Token::new(TokenType::Int, lit));
        } else {
            self.read_char();
            kind = TokenType::Illegal;
        }
        let lit = self.input.as_str().substring_char(start, self.position).to_owned();
        Some(Token::new(kind, lit))
    }
}

} // verus!

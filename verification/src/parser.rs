//! The parser: recursive descent for statements and precedence climbing for
//! expressions, with diagnostics accumulated instead of aborting, together
//! with the mathematical model of parsing that its contracts are stated
//! against.

use vstd::prelude::*;

use crate::ast::BlockStatement;
use crate::ast::BooleanLiteral;
use crate::ast::CallExpression;
use crate::ast::ErrorExpression;
use crate::ast::ExprModel;
use crate::ast::ExpressionNode;
use crate::ast::ExpressionStatement;
use crate::ast::FunctionLiteral;
use crate::ast::IdentifierExpression;
use crate::ast::IfExpression;
use crate::ast::InfixExpression;
use crate::ast::IntegerLiteral;
use crate::ast::LetStatement;
use crate::ast::PrefixExpression;
use crate::ast::ProgramNode;
use crate::ast::ReturnStatement;
use crate::ast::StatementNode;
use crate::ast::StmtModel;
use crate::ast::exprs_model;
use crate::ast::lemma_exprs_model_concat;
use crate::ast::lemma_exprs_model_singleton;
use crate::ast::lemma_stmts_model_concat;
use crate::ast::lemma_stmts_model_singleton;
use crate::ast::stmts_model;
use crate::lexer::Lexer;
use crate::lexer::tokenize;
use crate::token::SpecToken;
use crate::token::Token;
use crate::token::TokenType;

verus! {

/// The mathematical value of a diagnostic.
pub ghost enum DiagModel {
    Mismatch { expected: TokenType, found: SpecToken },
    NoRule { found: SpecToken },
}

/// A recoverable parse error: a production required a specific token kind
/// and found another, or an expression position was reached with a token
/// that no expression can start with. The found token carries its literal
/// for location context.
#[derive(Debug, Clone, PartialEq, Eq)]
pub enum Diagnostic {
    UnexpectedToken { expected: TokenType, found: Token },
    NoPrefixRule { found: Token },
}

impl View for Diagnostic {
    type V = DiagModel;

    open spec fn view(&self) -> DiagModel {
        match self {
            Diagnostic::UnexpectedToken { expected, found } => DiagModel::Mismatch {
                expected: *expected,
                found: found@,
            },
            Diagnostic::NoPrefixRule { found } => DiagModel::NoRule { found: found@ },
        }
    }
}

impl DeepView for Diagnostic {
    type V = DiagModel;

    open spec fn deep_view(&self) -> DiagModel {
        self.view()
    }
}

/// The token at position `p` of the stream, or the end-of-input token once
/// the stream is exhausted.
pub open spec fn tok_at(toks: Seq<SpecToken>, p: int) -> SpecToken {
    if 0 <= p < toks.len() {
        toks[p]
    } else {
        SpecToken { kind: TokenType::EOF, text: Seq::empty() }
    }
}

/// The kind of the token at position `p`.
pub open spec fn kind_at(toks: Seq<SpecToken>, p: int) -> TokenType {
    tok_at(toks, p).kind
}

/// The binding power of a token kind in infix position: equality binds
/// loosest above the base level, then comparison, then additive, then
/// multiplicative; a call's opening parenthesis binds tightest. Every
/// other kind sits at the base level and never extends an expression.
pub open spec fn spec_precedence(k: TokenType) -> int {
    match k {
        TokenType::Eq => 2,
        TokenType::NotEq => 2,
        TokenType::LT => 3,
        TokenType::GT => 3,
        TokenType::Plus => 4,
        TokenType::Minus => 4,
        TokenType::Slash => 5,
        TokenType::Asterisk => 5,
        TokenType::LParen => 7,
        _ => 1,
    }
}

/// The token kinds that act as binary operators.
pub open spec fn is_infix_op(k: TokenType) -> bool {
    k == TokenType::Plus || k == TokenType::Minus || k == TokenType::Slash || k
        == TokenType::Asterisk || k == TokenType::LT || k == TokenType::GT || k == TokenType::Eq
        || k == TokenType::NotEq
}

/// Clamp a position to the end of the token range.
pub open spec fn clip(len: int, p: int) -> int {
    if p <= len {
        p
    } else {
        len
    }
}

/// Clamp a sub-parse's resulting position into the token range, past the
/// position the sub-parse started at. Parsing a construct always consumes
/// at least one token, so on real results this is the identity; it lets
/// the termination measure of the mutually recursive definitions below
/// stand on its own.
pub open spec fn bounded(len: int, from: int, p: int) -> int {
    if from + 1 <= p && p <= len {
        p
    } else if from + 1 <= len {
        from + 1
    } else {
        len
    }
}

/// The resynchronization point after a malformed statement: everything up
/// to and including the next semicolon is skipped; a closing brace or the
/// end of input is left in place.
pub open spec fn spec_sync(toks: Seq<SpecToken>, pos: int) -> int
    decreases toks.len() - pos
        when 0 <= pos <= toks.len()
{
    if pos >= toks.len() {
        pos
    } else if toks[pos].kind == TokenType::SemiColon {
        pos + 1
    } else if toks[pos].kind == TokenType::RBrace || toks[pos].kind == TokenType::EOF {
        pos
    } else {
        spec_sync(toks, pos + 1)
    }
}

pub proof fn lemma_sync_bounds(toks: Seq<SpecToken>, pos: int)
    requires
        0 <= pos <= toks.len(),
    ensures
        pos <= spec_sync(toks, pos) <= toks.len(),
    decreases toks.len() - pos,
{
    if pos < toks.len() && toks[pos].kind != TokenType::SemiColon && toks[pos].kind
        != TokenType::RBrace {
        lemma_sync_bounds(toks, pos + 1);
    }
}

/// Parse the expression that starts at `pos`: the token's prefix rule
/// produces the left operand (or an error placeholder and a diagnostic
/// where the token has no prefix rule), and infix rules then fold in
/// operators that bind tighter than `min_prec`.
pub open spec fn spec_parse_expression(toks: Seq<SpecToken>, pos: int, min_prec: int) -> (
    ExprModel,
    Seq<DiagModel>,
    int,
)
    decreases toks.len() - pos, 3int,
        when 0 <= pos <= toks.len()
{
    let (left, ds, p0) = spec_parse_prefix(toks, pos);
    let p = bounded(toks.len() as int, pos, p0);
    let (r, ds2, p2) = spec_infix_loop(toks, p, min_prec, left);
    (r, ds + ds2, p2)
}

/// Fold infix applications onto `left` while the next token binds tighter
/// than `min_prec`: a binary operator takes a right operand parsed at the
/// operator's own binding power (which makes equal operators fold to the
/// left), and an opening parenthesis folds `left` into a call.
pub open spec fn spec_infix_loop(toks: Seq<SpecToken>, p: int, min_prec: int, left: ExprModel) -> (
    ExprModel,
    Seq<DiagModel>,
    int,
)
    decreases toks.len() - p, 1int,
        when 0 <= p <= toks.len()
{
    let k = kind_at(toks, p);
    if spec_precedence(k) > min_prec && is_infix_op(k) {
        let (right, ds2, q0) = spec_parse_expression(toks, p + 1, spec_precedence(k));
        let q = bounded(toks.len() as int, p, q0);
        let (r, ds3, p3) = spec_infix_loop(
            toks,
            q,
            min_prec,
            ExprModel::Infix {
                left: Box::new(left),
                op: tok_at(toks, p).text,
                right: Box::new(right),
            },
        );
        (r, ds2 + ds3, p3)
    } else if spec_precedence(k) > min_prec && k == TokenType::LParen {
        let (args, ds2, q0) = spec_parse_args(toks, p + 1);
        let q = bounded(toks.len() as int, p, q0);
        let (r, ds3, p3) = spec_infix_loop(
            toks,
            q,
            min_prec,
            ExprModel::Call { callee: Box::new(left), args: args },
        );
        (r, ds2 + ds3, p3)
    } else {
        (left, Seq::empty(), p)
    }
}

/// The prefix rule of the token at `pos`: literal and identifier
/// passthrough, unary prefix, grouped parenthesized expression, `if`
/// expression, function literal; any other kind yields an error
/// placeholder and a diagnostic.
pub open spec fn spec_parse_prefix(toks: Seq<SpecToken>, pos: int) -> (
    ExprModel,
    Seq<DiagModel>,
    int,
)
    decreases toks.len() - pos, 2int,
        when 0 <= pos <= toks.len()
{
    let t = tok_at(toks, pos);
    if t.kind == TokenType::Ident {
        (ExprModel::Ident { name: t.text }, Seq::empty(), pos + 1)
    } else if t.kind == TokenType::Int {
        (ExprModel::IntLit { text: t.text }, Seq::empty(), pos + 1)
    } else if t.kind == TokenType::True {
        (ExprModel::BoolLit { value: true }, Seq::empty(), pos + 1)
    } else if t.kind == TokenType::False {
        (ExprModel::BoolLit { value: false }, Seq::empty(), pos + 1)
    } else if t.kind == TokenType::Bang || t.kind == TokenType::Minus {
        let (right, ds, q0) = spec_parse_expression(toks, pos + 1, 6);
        let q = bounded(toks.len() as int, pos, q0);
        (ExprModel::Prefix { op: t.text, right: Box::new(right) }, ds, q)
    } else if t.kind == TokenType::LParen {
        let (e, ds, q0) = spec_parse_expression(toks, pos + 1, 1);
        let q = bounded(toks.len() as int, pos, q0);
        if kind_at(toks, q) == TokenType::RParen {
            (e, ds, q + 1)
        } else {
            (
                e,
                ds + seq![
                    DiagModel::Mismatch { expected: TokenType::RParen, found: tok_at(toks, q) },
                ],
                q,
            )
        }
    } else if t.kind == TokenType::If {
        let (e, ds, q0) = spec_parse_if(toks, pos);
        (e, ds, bounded(toks.len() as int, pos, q0))
    } else if t.kind == TokenType::Function {
        let (e, ds, q0) = spec_parse_fn_literal(toks, pos);
        (e, ds, bounded(toks.len() as int, pos, q0))
    } else if t.kind == TokenType::EOF {
        (ExprModel::Error { text: t.text }, seq![DiagModel::NoRule { found: t }], pos)
    } else {
        (ExprModel::Error { text: t.text }, seq![DiagModel::NoRule { found: t }], pos + 1)
    }
}

/// Parse an `if` expression at `pos`: a mandatory parenthesized condition,
/// a mandatory consequence block, and an optional `else` with a mandatory
/// alternative block.
pub open spec fn spec_parse_if(toks: Seq<SpecToken>, pos: int) -> (ExprModel, Seq<DiagModel>, int)
    decreases toks.len() - pos, 1int,
        when 0 <= pos <= toks.len()
{
    if kind_at(toks, pos + 1) != TokenType::LParen {
        (
            ExprModel::Error { text: tok_at(toks, pos + 1).text },
            seq![
                DiagModel::Mismatch { expected: TokenType::LParen, found: tok_at(toks, pos + 1) },
            ],
            pos + 1,
        )
    } else {
        let (cond, ds1, c0) = spec_parse_expression(toks, pos + 2, 1);
        let c = bounded(toks.len() as int, pos + 1, c0);
        if kind_at(toks, c) != TokenType::RParen {
            (
                ExprModel::Error { text: tok_at(toks, c).text },
                ds1 + seq![
                    DiagModel::Mismatch { expected: TokenType::RParen, found: tok_at(toks, c) },
                ],
                c,
            )
        } else if kind_at(toks, c + 1) != TokenType::LBrace {
            (
                ExprModel::Error { text: tok_at(toks, c + 1).text },
                ds1 + seq![
                    DiagModel::Mismatch { expected: TokenType::LBrace, found: tok_at(toks, c + 1) },
                ],
                c + 1,
            )
        } else {
            let (cons, ds2, b0) = spec_parse_block(toks, c + 1);
            let b = bounded(toks.len() as int, c + 1, b0);
            if kind_at(toks, b) == TokenType::Else {
                if kind_at(toks, b + 1) != TokenType::LBrace {
                    (
                        ExprModel::If {
                            cond: Box::new(cond),
                            consequence: cons,
                            alternative: None,
                        },
                        ds1 + ds2 + seq![
                            DiagModel::Mismatch {
                                expected: TokenType::LBrace,
                                found: tok_at(toks, b + 1),
                            },
                        ],
                        b + 1,
                    )
                } else {
                    let (alt, ds3, a0) = spec_parse_block(toks, b + 1);
                    (
                        ExprModel::If {
                            cond: Box::new(cond),
                            consequence: cons,
                            alternative: Some(alt),
                        },
                        ds1 + ds2 + ds3,
                        bounded(toks.len() as int, b + 1, a0),
                    )
                }
            } else {
                (
                    ExprModel::If { cond: Box::new(cond), consequence: cons, alternative: None },
                    ds1 + ds2,
                    b,
                )
            }
        }
    }
}

/// Parse a function literal at `pos`: `fn`, a mandatory parenthesized
/// parameter list, and a mandatory body block.
pub open spec fn spec_parse_fn_literal(toks: Seq<SpecToken>, pos: int) -> (
    ExprModel,
    Seq<DiagModel>,
    int,
)
    decreases toks.len() - pos, 1int,
        when 0 <= pos <= toks.len()
{
    if kind_at(toks, pos + 1) != TokenType::LParen {
        (
            ExprModel::Error { text: tok_at(toks, pos + 1).text },
            seq![
                DiagModel::Mismatch { expected: TokenType::LParen, found: tok_at(toks, pos + 1) },
            ],
            pos + 1,
        )
    } else {
        let (params, ds1, q0) = spec_parse_params(toks, pos + 2);
        let q = bounded(toks.len() as int, pos + 1, q0);
        if kind_at(toks, q) != TokenType::LBrace {
            (
                ExprModel::Error { text: tok_at(toks, q).text },
                ds1 + seq![
                    DiagModel::Mismatch { expected: TokenType::LBrace, found: tok_at(toks, q) },
                ],
                q,
            )
        } else {
            let (body, ds2, b0) = spec_parse_block(toks, q);
            (
                ExprModel::Func { params: params, body: body },
                ds1 + ds2,
                bounded(toks.len() as int, q, b0),
            )
        }
    }
}

/// Parse a comma-separated parameter list after the opening parenthesis:
/// identifiers only; a closing parenthesis where a parameter was expected
/// is an empty list, not an error.
pub open spec fn spec_parse_params(toks: Seq<SpecToken>, pos: int) -> (
    Seq<Seq<char>>,
    Seq<DiagModel>,
    int,
)
    decreases toks.len() - pos
        when 0 <= pos <= toks.len()
{
    if kind_at(toks, pos) == TokenType::RParen {
        (Seq::empty(), Seq::empty(), pos + 1)
    } else if kind_at(toks, pos) == TokenType::Ident {
        let name = tok_at(toks, pos).text;
        if kind_at(toks, pos + 1) == TokenType::Comma {
            let (rest, ds, p) = spec_parse_params(toks, pos + 2);
            (seq![name] + rest, ds, p)
        } else if kind_at(toks, pos + 1) == TokenType::RParen {
            (seq![name], Seq::empty(), pos + 2)
        } else {
            (
                seq![name],
                seq![
                    DiagModel::Mismatch {
                        expected: TokenType::RParen,
                        found: tok_at(toks, pos + 1),
                    },
                ],
                pos + 1,
            )
        }
    } else {
        (
            Seq::empty(),
            seq![DiagModel::Mismatch { expected: TokenType::Ident, found: tok_at(toks, pos) }],
            pos,
        )
    }
}

/// Parse a comma-separated argument list after the opening parenthesis of
/// a call: a closing parenthesis where an argument was expected is an
/// empty list, not an error.
pub open spec fn spec_parse_args(toks: Seq<SpecToken>, pos: int) -> (
    Seq<ExprModel>,
    Seq<DiagModel>,
    int,
)
    decreases toks.len() - pos, 4int,
        when 0 <= pos <= toks.len()
{
    if kind_at(toks, pos) == TokenType::RParen {
        (Seq::empty(), Seq::empty(), pos + 1)
    } else {
        let (e, ds, p0) = spec_parse_expression(toks, pos, 1);
        let p = bounded(toks.len() as int, pos, p0);
        if kind_at(toks, p) == TokenType::Comma {
            let (rest, ds2, p2) = spec_parse_args(toks, p + 1);
            (seq![e] + rest, ds + ds2, p2)
        } else if kind_at(toks, p) == TokenType::RParen {
            (seq![e], ds, p + 1)
        } else {
            (
                seq![e],
                ds + seq![
                    DiagModel::Mismatch { expected: TokenType::RParen, found: tok_at(toks, p) },
                ],
                p,
            )
        }
    }
}

/// Parse a block at the opening brace: statements until the closing brace
/// or the end of input; a block that reaches end of input without its
/// closing brace is a diagnostic.
pub open spec fn spec_parse_block(toks: Seq<SpecToken>, pos: int) -> (
    Seq<StmtModel>,
    Seq<DiagModel>,
    int,
)
    decreases toks.len() - pos, 4int,
        when 0 <= pos < toks.len()
{
    let (ss, ds, p0) = spec_parse_stmts(toks, pos + 1);
    let p = bounded(toks.len() as int, pos, p0);
    if kind_at(toks, p) == TokenType::RBrace {
        (ss, ds, p + 1)
    } else {
        (
            ss,
            ds + seq![DiagModel::Mismatch { expected: TokenType::RBrace, found: tok_at(toks, p) }],
            p,
        )
    }
}

/// Parse statements until a closing brace or the end of input.
pub open spec fn spec_parse_stmts(toks: Seq<SpecToken>, pos: int) -> (
    Seq<StmtModel>,
    Seq<DiagModel>,
    int,
)
    decreases toks.len() - pos, 6int,
        when 0 <= pos <= toks.len()
{
    if kind_at(toks, pos) == TokenType::RBrace || kind_at(toks, pos) == TokenType::EOF {
        (Seq::empty(), Seq::empty(), pos)
    } else {
        let (s, ds, p0) = spec_parse_statement(toks, pos);
        let p = bounded(toks.len() as int, pos, p0);
        let (rest, ds2, p2) = spec_parse_stmts(toks, p);
        (seq![s] + rest, ds + ds2, p2)
    }
}

/// Parse a `let` statement: `let`, a bound identifier, an assignment
/// token, the value expression, and an optional terminator. A missing
/// identifier or assignment token yields a diagnostic and a partial node,
/// and skips ahead to the next statement boundary.
pub open spec fn spec_parse_let(toks: Seq<SpecToken>, pos: int) -> (StmtModel, Seq<DiagModel>, int)
    decreases toks.len() - pos, 4int,
        when 0 <= pos <= toks.len()
{
    if kind_at(toks, pos + 1) != TokenType::Ident {
        (
            StmtModel::Let {
                name: Seq::empty(),
                value: ExprModel::Error { text: tok_at(toks, pos + 1).text },
            },
            seq![DiagModel::Mismatch { expected: TokenType::Ident, found: tok_at(toks, pos + 1) }],
            spec_sync(toks, clip(toks.len() as int, pos + 1)),
        )
    } else if kind_at(toks, pos + 2) != TokenType::Assign {
        (
            StmtModel::Let {
                name: tok_at(toks, pos + 1).text,
                value: ExprModel::Error { text: tok_at(toks, pos + 2).text },
            },
            seq![DiagModel::Mismatch { expected: TokenType::Assign, found: tok_at(toks, pos + 2) }],
            spec_sync(toks, pos + 2),
        )
    } else {
        let (v, ds, p0) = spec_parse_expression(toks, pos + 3, 1);
        let p = bounded(toks.len() as int, pos + 2, p0);
        if kind_at(toks, p) == TokenType::SemiColon {
            (StmtModel::Let { name: tok_at(toks, pos + 1).text, value: v }, ds, p + 1)
        } else {
            (StmtModel::Let { name: tok_at(toks, pos + 1).text, value: v }, ds, p)
        }
    }
}

/// Parse a `return` statement: the following expression is the return
/// value, with an optional terminator.
pub open spec fn spec_parse_return(toks: Seq<SpecToken>, pos: int) -> (
    StmtModel,
    Seq<DiagModel>,
    int,
)
    decreases toks.len() - pos, 4int,
        when 0 <= pos <= toks.len()
{
    let (v, ds, p0) = spec_parse_expression(toks, clip(toks.len() as int, pos + 1), 1);
    let p = bounded(toks.len() as int, pos, p0);
    if kind_at(toks, p) == TokenType::SemiColon {
        (StmtModel::Return { value: v }, ds, p + 1)
    } else {
        (StmtModel::Return { value: v }, ds, p)
    }
}

/// Parse one statement, dispatched on the current token's kind: `let`,
/// `return`, a block, or a bare expression with an optional terminator.
/// An expression statement whose expression failed outright skips ahead
/// to the next statement boundary.
pub open spec fn spec_parse_statement(toks: Seq<SpecToken>, pos: int) -> (
    StmtModel,
    Seq<DiagModel>,
    int,
)
    decreases toks.len() - pos, 5int,
        when 0 <= pos <= toks.len()
{
    let k = kind_at(toks, pos);
    if k == TokenType::Let {
        spec_parse_let(toks, pos)
    } else if k == TokenType::Return {
        spec_parse_return(toks, pos)
    } else if k == TokenType::LBrace {
        let (ss, ds, p0) = spec_parse_block(toks, pos);
        (StmtModel::Block { body: ss }, ds, bounded(toks.len() as int, pos, p0))
    } else {
        let (e, ds, p0) = spec_parse_expression(toks, pos, 1);
        let p = bounded(toks.len() as int, pos, p0);
        if e is Error {
            (StmtModel::Expr { value: e }, ds, bounded(toks.len() as int, pos, spec_sync(toks, p)))
        } else if kind_at(toks, p) == TokenType::SemiColon {
            (StmtModel::Expr { value: e }, ds, p + 1)
        } else {
            (StmtModel::Expr { value: e }, ds, p)
        }
    }
}

/// Parse a whole program: statements until the end of input, with all
/// their diagnostics in order.
pub open spec fn spec_parse_program(toks: Seq<SpecToken>, pos: int) -> (
    Seq<StmtModel>,
    Seq<DiagModel>,
    int,
)
    decreases toks.len() - pos, 6int,
        when 0 <= pos <= toks.len()
{
    if kind_at(toks, pos) == TokenType::EOF {
        (Seq::empty(), Seq::empty(), pos)
    } else {
        let (s, ds, p0) = spec_parse_statement(toks, pos);
        let p = bounded(toks.len() as int, pos, p0);
        let (rest, ds2, p2) = spec_parse_program(toks, p);
        (seq![s] + rest, ds + ds2, p2)
    }
}

/// Copy a token, field by field.
fn clone_token(t: &Token) -> (r: Token)
    ensures
        r@ == t@,
{
    Token::new(t.token_type, t.literal.clone())
}

/// The binding power of a token kind in infix position.
fn precedence(k: TokenType) -> (r: u8)
    ensures
        r as int == spec_precedence(k),
{
    match k {
        TokenType::Eq => 2,
        TokenType::NotEq => 2,
        TokenType::LT => 3,
        TokenType::GT => 3,
        TokenType::Plus => 4,
        TokenType::Minus => 4,
        TokenType::Slash => 5,
        TokenType::Asterisk => 5,
        TokenType::LParen => 7,
        _ => 1,
    }
}

/// Whether the token kind acts as a binary operator.
fn is_infix_token(k: TokenType) -> (r: bool)
    ensures
        r == is_infix_op(k),
{
    k == TokenType::Plus || k == TokenType::Minus || k == TokenType::Slash || k
        == TokenType::Asterisk || k == TokenType::LT || k == TokenType::GT || k == TokenType::Eq
        || k == TokenType::NotEq
}

/// For `let <identifier> = <expr>`, the parsed statement is a `Let` node
/// whose bound name is exactly the identifier's literal and whose value
/// subtree is exactly the expression parsed after the assignment token,
/// with exactly that expression's diagnostics.
pub proof fn lemma_let_statement_shape(toks: Seq<SpecToken>, pos: int)
    requires
        0 <= pos <= toks.len(),
        kind_at(toks, pos) == TokenType::Let,
        kind_at(toks, pos + 1) == TokenType::Ident,
        kind_at(toks, pos + 2) == TokenType::Assign,
    ensures
        spec_parse_statement(toks, pos).0 == (StmtModel::Let {
            name: tok_at(toks, pos + 1).text,
            value: spec_parse_expression(toks, pos + 3, 1).0,
        }),
        spec_parse_statement(toks, pos).1 == spec_parse_expression(toks, pos + 3, 1).1,
{
}

/// Whether the token can extend the expression to its left at the given
/// binding power threshold.
fn infix_continues(t: &Token, min_prec: u8) -> (r: bool)
    ensures
        r == (spec_precedence(t@.kind) > min_prec && (is_infix_op(t@.kind) || t@.kind
            == TokenType::LParen)),
{
    let p = precedence(t.token_type);
    p > min_prec && (is_infix_token(t.token_type) || t.token_type == TokenType::LParen)
}

/// The parser: it pulls tokens from its tokenizer on demand, holding the
/// current token and one token of lookahead, and accumulates diagnostics
/// as it builds the tree.
pub struct Parser {
    lexer: Lexer,
    cur_token: Token,
    peek_token: Token,
    diagnostics: Vec<Diagnostic>,
    idx: Ghost<int>,
}

impl Parser {
    /// The token stream of the parser's source.
    pub closed spec fn toks(self) -> Seq<SpecToken> {
        tokenize(self.lexer.src())
    }

    /// The position of the current token in the stream.
    pub closed spec fn at(self) -> int {
        self.idx@
    }

    /// The diagnostics accumulated so far.
    pub closed spec fn diags(self) -> Seq<DiagModel> {
        self.diagnostics.deep_view()
    }

    /// Parser well-formedness: the current and lookahead tokens are the
    /// ones at the cursor position, and the tokenizer stands just past
    /// the lookahead.
    pub closed spec fn wf(self) -> bool {
        &&& self.lexer.wf()
        &&& 0 <= self.idx@ <= self.toks().len()
        &&& self.cur_token@ == tok_at(self.toks(), self.idx@)
        &&& self.peek_token@ == tok_at(self.toks(), self.idx@ + 1)
        &&& self.lexer.remaining() == self.toks().skip(
            if self.idx@ + 2 <= self.toks().len() {
                self.idx@ + 2
            } else {
                self.toks().len() as int
            },
        )
        &&& forall|i: int|
            0 <= i < self.toks().len() ==> #[trigger] self.toks()[i].kind != TokenType::EOF
    }

    /// Construct a parser over a fresh tokenizer, pulling the first two
    /// tokens into the current and lookahead slots.
    pub fn new(lexer: Lexer) -> (p: Parser)
        requires
            lexer.wf(),
            lexer.remaining() == tokenize(lexer.src()),
        ensures
            p.wf(),
            p.toks() == tokenize(lexer.src()),
            p.at() == 0,
            p.diags() == Seq::<DiagModel>::empty(),
    {
        let ghost ts = tokenize(lexer.src());
        proof {
            crate::lexer::lemma_tokens_from_no_eof(lexer.src(), 0);
        }
        let mut lexer = lexer;
        let cur = match lexer.next_token() {
            Some(t) => t,
            None => Token::new(TokenType::EOF, String::new()),
        };
        let peek = match lexer.next_token() {
            Some(t) => t,
            None => Token::new(TokenType::EOF, String::new()),
        };
        proof {
            if ts.len() == 0 {
                assert(lexer.remaining() =~= ts.skip(0));
            } else if ts.len() == 1 {
                assert(ts.drop_first() =~= ts.skip(1));
                assert(lexer.remaining() =~= ts.skip(1));
            } else {
                assert(ts.drop_first() =~= ts.skip(1));
                assert(ts.skip(1).drop_first() =~= ts.skip(2));
                assert(ts.skip(1)[0] == ts[1]);
            }
            let d: Seq<Diagnostic> = Seq::empty();
            assert(d.map(|i: int, x: Diagnostic| x.deep_view()) =~= Seq::<DiagModel>::empty());
        }
        Parser { lexer, cur_token: cur, peek_token: peek, diagnostics: Vec::new(), idx: Ghost(0) }
    }

    /// Advance: the lookahead token becomes current and a fresh token is
    /// pulled from the tokenizer into the lookahead slot.
    fn next_token(&mut self)
        requires
            old(self).wf(),
        ensures
            final(self).wf(),
            final(self).toks() == old(self).toks(),
            final(self).diags() == old(self).diags(),
            final(self).at() == (if old(self).at() < old(self).toks().len() {
                old(self).at() + 1
            } else {
                old(self).at()
            }),
    {
        let ghost ts = self.toks();
        let ghost n = self.idx@;
        let pulled = match self.lexer.next_token() {
            Some(t) => t,
            None => Token::new(TokenType::EOF, String::new()),
        };
        let mut tmp = pulled;
        core::mem::swap(&mut self.peek_token, &mut tmp);
        core::mem::swap(&mut self.cur_token, &mut tmp);
        let ghost n2 = if n < ts.len() {
            n + 1
        } else {
            n
        };
        self.idx = Ghost(n2);
        proof {
            let len = ts.len() as int;
            if n + 2 < len {
                assert(ts.skip(n + 2)[0] == ts[n + 2]);
                assert(ts.skip(n + 2).drop_first() =~= ts.skip(n + 3));
            } else {
                assert(ts.skip(if n + 2 <= len {
                    n + 2
                } else {
                    len
                }).len() == 0);
                assert(self.lexer.remaining() =~= ts.skip(
                    if n2 + 2 <= len {
                        n2 + 2
                    } else {
                        len
                    },
                ));
            }
        }
    }

    /// Skip ahead to the next statement boundary: everything up to and
    /// including the next semicolon; a closing brace or the end of input
    /// stops the skip without being consumed.
    fn synchronize(&mut self)
        requires
            old(self).wf(),
        ensures
            final(self).wf(),
            final(self).toks() == old(self).toks(),
            final(self).diags() == old(self).diags(),
            final(self).at() == spec_sync(old(self).toks(), old(self).at()),
    {
        while self.cur_token.token_type != TokenType::SemiColon && self.cur_token.token_type
            != TokenType::RBrace && self.cur_token.token_type != TokenType::EOF
            invariant
                self.wf(),
                self.toks() == old(self).toks(),
                self.diags() == old(self).diags(),
                spec_sync(self.toks(), self.at()) == spec_sync(old(self).toks(), old(self).at()),
            decreases self.toks().len() - self.at(),
        {
            self.next_token();
        }
        if self.cur_token.token_type == TokenType::SemiColon {
            self.next_token();
        }
    }

    /// The diagnostics recorded so far, in the order they were found.
    pub fn diagnostics(&self) -> (r: &Vec<Diagnostic>)
        ensures
            r.deep_view() == self.diags(),
    {
        &self.diagnostics
    }

    /// Record a diagnostic for the current token failing to be of the
    /// expected kind.
    fn push_mismatch(&mut self, expected: TokenType)
        requires
            old(self).wf(),
        ensures
            final(self).wf(),
            final(self).toks() == old(self).toks(),
            final(self).at() == old(self).at(),
            final(self).diags() == old(self).diags() + seq![
                DiagModel::Mismatch {
                    expected: expected,
                    found: tok_at(old(self).toks(), old(self).at()),
                },
            ],
    {
        let found = clone_token(&self.cur_token);
        let ghost d0 = self.diags();
        self.diagnostics.push(Diagnostic::UnexpectedToken { expected, found });
        proof {
            assert(self.diags() =~= d0 + seq![
                DiagModel::Mismatch {
                    expected: expected,
                    found: tok_at(old(self).toks(), old(self).at()),
                },
            ]);
        }
    }

    /// Record a diagnostic for the current token having no prefix rule.
    fn push_no_rule(&mut self)
        requires
            old(self).wf(),
        ensures
            final(self).wf(),
            final(self).toks() == old(self).toks(),
            final(self).at() == old(self).at(),
            final(self).diags() == old(self).diags() + seq![
                DiagModel::NoRule { found: tok_at(old(self).toks(), old(self).at()) },
            ],
    {
        let found = clone_token(&self.cur_token);
        let ghost d0 = self.diags();
        self.diagnostics.push(Diagnostic::NoPrefixRule { found });
        proof {
            assert(self.diags() =~= d0 + seq![
                DiagModel::NoRule { found: tok_at(old(self).toks(), old(self).at()) },
            ]);
        }
    }

    /// Parse the expression that starts at the current token, folding in
    /// infix applications that bind tighter than `min_prec`.
    fn parse_expression(&mut self, min_prec: u8) -> (e: ExpressionNode)
        requires
            old(self).wf(),
            min_prec >= 1,
        ensures
            final(self).wf(),
            final(self).toks() == old(self).toks(),
            e.model() == spec_parse_expression(
                old(self).toks(),
                old(self).at(),
                min_prec as int,
            ).0,
            final(self).diags() == old(self).diags() + spec_parse_expression(
                old(self).toks(),
                old(self).at(),
                min_prec as int,
            ).1,
            final(self).at() == spec_parse_expression(
                old(self).toks(),
                old(self).at(),
                min_prec as int,
            ).2,
            old(self).at() <= final(self).at() <= final(self).toks().len(),
            old(self).at() < old(self).toks().len() ==> final(self).at() > old(self).at(),
        decreases old(self).toks().len() - old(self).at(), 3int,
    {
        let ghost ts = self.toks();
        let ghost n0 = self.at();
        let ghost d0 = self.diags();
        let ghost full = spec_parse_expression(ts, n0, min_prec as int);
        let ghost pfx = spec_parse_prefix(ts, n0);
        let mut left = self.parse_prefix();
        proof {
            assert(bounded(ts.len() as int, n0, pfx.2) == pfx.2);
            assert(d0 + (pfx.1 + spec_infix_loop(ts, pfx.2, min_prec as int, pfx.0).1) =~= (d0
                + pfx.1) + spec_infix_loop(ts, pfx.2, min_prec as int, pfx.0).1);
        }
        while infix_continues(&self.cur_token, min_prec)
            invariant
                self.wf(),
                min_prec >= 1,
                ts == old(self).toks(),
                n0 == old(self).at(),
                d0 == old(self).diags(),
                self.toks() == ts,
                full == spec_parse_expression(ts, n0, min_prec as int),
                n0 <= self.at() <= ts.len(),
                n0 < ts.len() ==> self.at() > n0,
                full.0 == spec_infix_loop(ts, self.at(), min_prec as int, left.model()).0,
                full.2 == spec_infix_loop(ts, self.at(), min_prec as int, left.model()).2,
                d0 + full.1 == self.diags() + spec_infix_loop(
                    ts,
                    self.at(),
                    min_prec as int,
                    left.model(),
                ).1,
            decreases ts.len() - self.at(),
        {
            let ghost nl = self.at();
            let ghost lm = left.model();
            let ghost tloop = spec_infix_loop(ts, nl, min_prec as int, lm);
            let ghost dl = self.diags();
            let k = self.cur_token.token_type;
            let op_token = clone_token(&self.cur_token);
            if k == TokenType::LParen {
                self.next_token();
                let ghost sub = spec_parse_args(ts, nl + 1);
                let args = self.parse_call_arguments();
                let call = ExpressionNode::Call(
                    CallExpression {
                        token: op_token,
                        function: Box::new(left),
                        arguments: args,
                    },
                );
                proof {
                    assert(bounded(ts.len() as int, nl, sub.2) == sub.2);
                    let tnext = spec_infix_loop(ts, sub.2, min_prec as int, call.model());
                    assert(tloop.0 == tnext.0);
                    assert(tloop.1 =~= sub.1 + tnext.1);
                    assert(dl + (sub.1 + tnext.1) =~= (dl + sub.1) + tnext.1);
                    assert(d0 + full.1 == self.diags() + tnext.1);
                }
                left = call;
            } else {
                self.next_token();
                let ghost sub = spec_parse_expression(ts, nl + 1, spec_precedence(k));
                let operator = op_token.literal.clone();
                let right = self.parse_expression(precedence(k));
                let infix = ExpressionNode::Infix(
                    InfixExpression {
                        token: op_token,
                        left: Box::new(left),
                        operator,
                        right: Box::new(right),
                    },
                );
                proof {
                    assert(bounded(ts.len() as int, nl, sub.2) == sub.2);
                    let tnext = spec_infix_loop(ts, sub.2, min_prec as int, infix.model());
                    assert(tloop.0 == tnext.0);
                    assert(tloop.1 =~= sub.1 + tnext.1);
                    assert(dl + (sub.1 + tnext.1) =~= (dl + sub.1) + tnext.1);
                    assert(d0 + full.1 == self.diags() + tnext.1);
                }
                left = infix;
            }
        }
        proof {
            assert(spec_infix_loop(ts, self.at(), min_prec as int, left.model()) == (
                left.model(),
                Seq::<DiagModel>::empty(),
                self.at(),
            ));
            assert(self.diags() + Seq::<DiagModel>::empty() =~= self.diags());
        }
        left
    }

    /// Apply the prefix rule of the current token.
    fn parse_prefix(&mut self) -> (e: ExpressionNode)
        requires
            old(self).wf(),
        ensures
            final(self).wf(),
            final(self).toks() == old(self).toks(),
            e.model() == spec_parse_prefix(old(self).toks(), old(self).at()).0,
            final(self).diags() == old(self).diags() + spec_parse_prefix(
                old(self).toks(),
                old(self).at(),
            ).1,
            final(self).at() == spec_parse_prefix(old(self).toks(), old(self).at()).2,
            old(self).at() <= final(self).at() <= final(self).toks().len(),
            old(self).at() < old(self).toks().len() ==> final(self).at() > old(self).at(),
        decreases old(self).toks().len() - old(self).at(), 2int,
    {
        let ghost ts = self.toks();
        let ghost n0 = self.at();
        let ghost d0 = self.diags();
        let k = self.cur_token.token_type;
        if k == TokenType::Ident {
            let t = clone_token(&self.cur_token);
            let value = t.literal.clone();
            self.next_token();
            proof {
                assert(self.diags() =~= d0 + Seq::<DiagModel>::empty());
            }
            ExpressionNode::Identifier(IdentifierExpression { token: t, value })
        } else if k == TokenType::Int {
            let t = clone_token(&self.cur_token);
            self.next_token();
            proof {
                assert(self.diags() =~= d0 + Seq::<DiagModel>::empty());
            }
            ExpressionNode::Integer(IntegerLiteral { token: t })
        } else if k == TokenType::True {
            let t = clone_token(&self.cur_token);
            self.next_token();
            proof {
                assert(self.diags() =~= d0 + Seq::<DiagModel>::empty());
            }
            ExpressionNode::Boolean(BooleanLiteral { token: t, value: true })
        } else if k == TokenType::False {
            let t = clone_token(&self.cur_token);
            self.next_token();
            proof {
                assert(self.diags() =~= d0 + Seq::<DiagModel>::empty());
            }
            ExpressionNode::Boolean(BooleanLiteral { token: t, value: false })
        } else if k == TokenType::Bang || k == TokenType::Minus {
            let t = clone_token(&self.cur_token);
            let operator = t.literal.clone();
            self.next_token();
            let ghost sub = spec_parse_expression(ts, n0 + 1, 6);
            let right = self.parse_expression(6);
            proof {
                assert(bounded(ts.len() as int, n0, sub.2) == sub.2);
            }
            ExpressionNode::Prefix(PrefixExpression { token: t, operator, right: Box::new(right) })
        } else if k == TokenType::LParen {
            self.next_token();
            let ghost sub = spec_parse_expression(ts, n0 + 1, 1);
            let e = self.parse_expression(1);
            proof {
                assert(bounded(ts.len() as int, n0, sub.2) == sub.2);
            }
            if self.cur_token.token_type == TokenType::RParen {
                self.next_token();
                e
            } else {
                let ghost miss = seq![
                    DiagModel::Mismatch { expected: TokenType::RParen, found: tok_at(ts, sub.2) },
                ];
                self.push_mismatch(TokenType::RParen);
                proof {
                    assert(d0 + (sub.1 + miss) =~= (d0 + sub.1) + miss);
                }
                e
            }
        } else if k == TokenType::If {
            let ghost sub = spec_parse_if(ts, n0);
            let e = self.parse_if_expression();
            proof {
                assert(bounded(ts.len() as int, n0, sub.2) == sub.2);
            }
            e
        } else if k == TokenType::Function {
            let ghost sub = spec_parse_fn_literal(ts, n0);
            let e = self.parse_function_literal();
            proof {
                assert(bounded(ts.len() as int, n0, sub.2) == sub.2);
            }
            e
        } else if k == TokenType::EOF {
            let t = clone_token(&self.cur_token);
            self.push_no_rule();
            ExpressionNode::Error(ErrorExpression { token: t })
        } else {
            let t = clone_token(&self.cur_token);
            self.push_no_rule();
            self.next_token();
            ExpressionNode::Error(ErrorExpression { token: t })
        }
    }

    /// Parse an `if` expression: a mandatory parenthesized condition, a
    /// mandatory consequence block, and an optional `else` alternative.
    fn parse_if_expression(&mut self) -> (e: ExpressionNode)
        requires
            old(self).wf(),
            kind_at(old(self).toks(), old(self).at()) == TokenType::If,
        ensures
            final(self).wf(),
            final(self).toks() == old(self).toks(),
            e.model() == spec_parse_if(old(self).toks(), old(self).at()).0,
            final(self).diags() == old(self).diags() + spec_parse_if(
                old(self).toks(),
                old(self).at(),
            ).1,
            final(self).at() == spec_parse_if(old(self).toks(), old(self).at()).2,
            old(self).at() < final(self).at() <= final(self).toks().len(),
        decreases old(self).toks().len() - old(self).at(), 1int,
    {
        let ghost ts = self.toks();
        let ghost n0 = self.at();
        let ghost d0 = self.diags();
        let if_token = clone_token(&self.cur_token);
        if self.peek_token.token_type != TokenType::LParen {
            self.next_token();
            let t = clone_token(&self.cur_token);
            self.push_mismatch(TokenType::LParen);
            return ExpressionNode::Error(ErrorExpression { token: t });
        }
        self.next_token();
        self.next_token();
        let ghost csub = spec_parse_expression(ts, n0 + 2, 1);
        let cond = self.parse_expression(1);
        proof {
            assert(bounded(ts.len() as int, n0 + 1, csub.2) == csub.2);
        }
        let ghost c = csub.2;
        if self.cur_token.token_type != TokenType::RParen {
            let t = clone_token(&self.cur_token);
            self.push_mismatch(TokenType::RParen);
            proof {
                assert(d0 + (csub.1 + seq![
                    DiagModel::Mismatch { expected: TokenType::RParen, found: tok_at(ts, c) },
                ]) =~= (d0 + csub.1) + seq![
                    DiagModel::Mismatch { expected: TokenType::RParen, found: tok_at(ts, c) },
                ]);
            }
            return ExpressionNode::Error(ErrorExpression { token: t });
        }
        if self.peek_token.token_type != TokenType::LBrace {
            self.next_token();
            let t = clone_token(&self.cur_token);
            self.push_mismatch(TokenType::LBrace);
            proof {
                assert(d0 + (csub.1 + seq![
                    DiagModel::Mismatch { expected: TokenType::LBrace, found: tok_at(ts, c + 1) },
                ]) =~= (d0 + csub.1) + seq![
                    DiagModel::Mismatch { expected: TokenType::LBrace, found: tok_at(ts, c + 1) },
                ]);
            }
            return ExpressionNode::Error(ErrorExpression { token: t });
        }
        self.next_token();
        let ghost bsub = spec_parse_block(ts, c + 1);
        let consequence = self.parse_block_statement();
        proof {
            assert(bounded(ts.len() as int, c + 1, bsub.2) == bsub.2);
        }
        let ghost b = bsub.2;
        if self.cur_token.token_type == TokenType::Else {
            if self.peek_token.token_type != TokenType::LBrace {
                self.next_token();
                self.push_mismatch(TokenType::LBrace);
                proof {
                    assert(d0 + (csub.1 + bsub.1 + seq![
                        DiagModel::Mismatch {
                            expected: TokenType::LBrace,
                            found: tok_at(ts, b + 1),
                        },
                    ]) =~= ((d0 + csub.1) + bsub.1) + seq![
                        DiagModel::Mismatch {
                            expected: TokenType::LBrace,
                            found: tok_at(ts, b + 1),
                        },
                    ]);
                }
                ExpressionNode::If(
                    IfExpression {
                        token: if_token,
                        condition: Box::new(cond),
                        consequence,
                        alternative: None,
                    },
                )
            } else {
                self.next_token();
                let ghost asub = spec_parse_block(ts, b + 1);
                let alternative = self.parse_block_statement();
                proof {
                    assert(bounded(ts.len() as int, b + 1, asub.2) == asub.2);
                    assert(d0 + (csub.1 + bsub.1 + asub.1) =~= ((d0 + csub.1) + bsub.1) + asub.1);
                }
                ExpressionNode::If(
                    IfExpression {
                        token: if_token,
                        condition: Box::new(cond),
                        consequence,
                        alternative: Some(alternative),
                    },
                )
            }
        } else {
            proof {
                assert(d0 + (csub.1 + bsub.1) =~= (d0 + csub.1) + bsub.1);
            }
            ExpressionNode::If(
                IfExpression {
                    token: if_token,
                    condition: Box::new(cond),
                    consequence,
                    alternative: None,
                },
            )
        }
    }

    /// Parse a function literal: `fn`, a mandatory parenthesized
    /// parameter list, and a mandatory body block.
    fn parse_function_literal(&mut self) -> (e: ExpressionNode)
        requires
            old(self).wf(),
            kind_at(old(self).toks(), old(self).at()) == TokenType::Function,
        ensures
            final(self).wf(),
            final(self).toks() == old(self).toks(),
            e.model() == spec_parse_fn_literal(old(self).toks(), old(self).at()).0,
            final(self).diags() == old(self).diags() + spec_parse_fn_literal(
                old(self).toks(),
                old(self).at(),
            ).1,
            final(self).at() == spec_parse_fn_literal(old(self).toks(), old(self).at()).2,
            old(self).at() < final(self).at() <= final(self).toks().len(),
        decreases old(self).toks().len() - old(self).at(), 1int,
    {
        let ghost ts = self.toks();
        let ghost n0 = self.at();
        let ghost d0 = self.diags();
        let fn_token = clone_token(&self.cur_token);
        if self.peek_token.token_type != TokenType::LParen {
            self.next_token();
            let t = clone_token(&self.cur_token);
            self.push_mismatch(TokenType::LParen);
            return ExpressionNode::Error(ErrorExpression { token: t });
        }
        self.next_token();
        self.next_token();
        let ghost psub = spec_parse_params(ts, n0 + 2);
        let parameters = self.parse_function_parameters();
        proof {
            assert(bounded(ts.len() as int, n0 + 1, psub.2) == psub.2);
        }
        let ghost q = psub.2;
        if self.cur_token.token_type != TokenType::LBrace {
            let t = clone_token(&self.cur_token);
            self.push_mismatch(TokenType::LBrace);
            proof {
                assert(d0 + (psub.1 + seq![
                    DiagModel::Mismatch { expected: TokenType::LBrace, found: tok_at(ts, q) },
                ]) =~= (d0 + psub.1) + seq![
                    DiagModel::Mismatch { expected: TokenType::LBrace, found: tok_at(ts, q) },
                ]);
            }
            return ExpressionNode::Error(ErrorExpression { token: t });
        }
        let ghost bsub = spec_parse_block(ts, q);
        let body = self.parse_block_statement();
        proof {
            assert(bounded(ts.len() as int, q, bsub.2) == bsub.2);
            assert(d0 + (psub.1 + bsub.1) =~= (d0 + psub.1) + bsub.1);
        }
        ExpressionNode::Function(FunctionLiteral { token: fn_token, parameters, body })
    }

    /// Parse the comma-separated parameter list after the opening
    /// parenthesis of a function literal.
    fn parse_function_parameters(&mut self) -> (r: Vec<IdentifierExpression>)
        requires
            old(self).wf(),
        ensures
            final(self).wf(),
            final(self).toks() == old(self).toks(),
            Seq::new(r@.len(), |k: int| r@[k].value@) == spec_parse_params(
                old(self).toks(),
                old(self).at(),
            ).0,
            final(self).diags() == old(self).diags() + spec_parse_params(
                old(self).toks(),
                old(self).at(),
            ).1,
            final(self).at() == spec_parse_params(old(self).toks(), old(self).at()).2,
            old(self).at() <= final(self).at() <= final(self).toks().len(),
    {
        let ghost ts = self.toks();
        let ghost n0 = self.at();
        let ghost d0 = self.diags();
        let ghost full = spec_parse_params(ts, n0);
        let mut params: Vec<IdentifierExpression> = Vec::new();
        loop
            invariant_except_break
                self.wf(),
                ts == old(self).toks(),
                n0 == old(self).at(),
                d0 == old(self).diags(),
                self.toks() == ts,
                full == spec_parse_params(ts, n0),
                n0 <= self.at() <= ts.len(),
                full.0 == Seq::new(params@.len(), |k: int| params@[k].value@) + spec_parse_params(
                    ts,
                    self.at(),
                ).0,
                d0 + full.1 == self.diags() + spec_parse_params(ts, self.at()).1,
                full.2 == spec_parse_params(ts, self.at()).2,
            ensures
                self.wf(),
                ts == old(self).toks(),
                n0 == old(self).at(),
                d0 == old(self).diags(),
                self.toks() == ts,
                full == spec_parse_params(ts, n0),
                Seq::new(params@.len(), |k: int| params@[k].value@) == full.0,
                self.diags() == d0 + full.1,
                self.at() == full.2,
                n0 <= self.at() <= ts.len(),
            decreases ts.len() - self.at(),
        {
            let ghost nl = self.at();
            let ghost pm = Seq::new(params@.len(), |k: int| params@[k].value@);
            if self.cur_token.token_type == TokenType::RParen {
                self.next_token();
                proof {
                    assert(pm + Seq::<Seq<char>>::empty() =~= pm);
                    assert(self.diags() + Seq::<DiagModel>::empty() =~= self.diags());
                    assert(d0 + full.1 =~= self.diags());
                }
                break ;
            }
            if self.cur_token.token_type != TokenType::Ident {
                self.push_mismatch(TokenType::Ident);
                proof {
                    assert(pm + Seq::<Seq<char>>::empty() =~= pm);
                    assert(d0 + full.1 =~= self.diags());
                }
                break ;
            }
            let t = clone_token(&self.cur_token);
            let value = t.literal.clone();
            params.push(IdentifierExpression { token: t, value });
            proof {
                assert(Seq::new(params@.len(), |k: int| params@[k].value@) =~= pm.push(
                    tok_at(ts, nl).text,
                ));
            }
            if self.peek_token.token_type == TokenType::Comma {
                self.next_token();
                self.next_token();
                proof {
                    let rest = spec_parse_params(ts, nl + 2);
                    assert(pm + (seq![tok_at(ts, nl).text] + rest.0) =~= pm.push(
                        tok_at(ts, nl).text,
                    ) + rest.0);
                }
            } else if self.peek_token.token_type == TokenType::RParen {
                self.next_token();
                self.next_token();
                proof {
                    assert(pm + seq![tok_at(ts, nl).text] =~= pm.push(tok_at(ts, nl).text));
                    assert(self.diags() + Seq::<DiagModel>::empty() =~= self.diags());
                    assert(d0 + full.1 =~= self.diags());
                }
                break ;
            } else {
                self.next_token();
                self.push_mismatch(TokenType::RParen);
                proof {
                    assert(pm + seq![tok_at(ts, nl).text] =~= pm.push(tok_at(ts, nl).text));
                    assert(d0 + full.1 =~= self.diags());
                }
                break ;
            }
        }
        params
    }

    /// Parse the comma-separated argument list after the opening
    /// parenthesis of a call.
    fn parse_call_arguments(&mut self) -> (r: Vec<ExpressionNode>)
        requires
            old(self).wf(),
        ensures
            final(self).wf(),
            final(self).toks() == old(self).toks(),
            exprs_model(r@) == spec_parse_args(old(self).toks(), old(self).at()).0,
            final(self).diags() == old(self).diags() + spec_parse_args(
                old(self).toks(),
                old(self).at(),
            ).1,
            final(self).at() == spec_parse_args(old(self).toks(), old(self).at()).2,
            old(self).at() <= final(self).at() <= final(self).toks().len(),
        decreases old(self).toks().len() - old(self).at(), 4int,
    {
        let ghost ts = self.toks();
        let ghost n0 = self.at();
        let ghost d0 = self.diags();
        let ghost full = spec_parse_args(ts, n0);
        let mut args: Vec<ExpressionNode> = Vec::new();
        loop
            invariant_except_break
                self.wf(),
                ts == old(self).toks(),
                n0 == old(self).at(),
                d0 == old(self).diags(),
                self.toks() == ts,
                full == spec_parse_args(ts, n0),
                n0 <= self.at() <= ts.len(),
                full.0 == exprs_model(args@) + spec_parse_args(ts, self.at()).0,
                d0 + full.1 == self.diags() + spec_parse_args(ts, self.at()).1,
                full.2 == spec_parse_args(ts, self.at()).2,
            ensures
                self.wf(),
                ts == old(self).toks(),
                n0 == old(self).at(),
                d0 == old(self).diags(),
                self.toks() == ts,
                full == spec_parse_args(ts, n0),
                exprs_model(args@) == full.0,
                self.diags() == d0 + full.1,
                self.at() == full.2,
                n0 <= self.at() <= ts.len(),
            decreases ts.len() - self.at(),
        {
            let ghost nl = self.at();
            let ghost am = exprs_model(args@);
            if self.cur_token.token_type == TokenType::RParen {
                self.next_token();
                proof {
                    assert(am + Seq::<ExprModel>::empty() =~= am);
                    assert(self.diags() + Seq::<DiagModel>::empty() =~= self.diags());
                    assert(d0 + full.1 =~= self.diags());
                }
                break ;
            }
            let ghost dpre = self.diags();
            let ghost esub = spec_parse_expression(ts, nl, 1);
            let e = self.parse_expression(1);
            proof {
                assert(bounded(ts.len() as int, nl, esub.2) == esub.2);
            }
            let ghost p = esub.2;
            let ghost prev = args@;
            args.push(e);
            proof {
                assert(args@ =~= prev + seq![args@[args@.len() - 1]]);
                lemma_exprs_model_concat(prev, seq![args@[args@.len() - 1]]);
                lemma_exprs_model_singleton(args@[args@.len() - 1]);
                assert(exprs_model(args@) =~= am + seq![esub.0]);
            }
            if self.cur_token.token_type == TokenType::Comma {
                self.next_token();
                proof {
                    let rest = spec_parse_args(ts, p + 1);
                    assert(am + (seq![esub.0] + rest.0) =~= (am + seq![esub.0]) + rest.0);
                    assert(dpre + (esub.1 + rest.1) =~= (dpre + esub.1) + rest.1);
                }
            } else if self.cur_token.token_type == TokenType::RParen {
                self.next_token();
                proof {
                    assert(d0 + full.1 =~= self.diags());
                }
                break ;
            } else {
                let ghost miss = seq![
                    DiagModel::Mismatch { expected: TokenType::RParen, found: tok_at(ts, p) },
                ];
                self.push_mismatch(TokenType::RParen);
                proof {
                    assert(dpre + (esub.1 + miss) =~= (dpre + esub.1) + miss);
                    assert(d0 + full.1 =~= self.diags());
                }
                break ;
            }
        }
        args
    }

    /// Parse a block: the opening brace, statements until the closing
    /// brace or the end of input, and the closing brace, whose absence is
    /// a diagnostic.
    fn parse_block_statement(&mut self) -> (b: BlockStatement)
        requires
            old(self).wf(),
            kind_at(old(self).toks(), old(self).at()) == TokenType::LBrace,
        ensures
            final(self).wf(),
            final(self).toks() == old(self).toks(),
            stmts_model(b.statements@) == spec_parse_block(old(self).toks(), old(self).at()).0,
            final(self).diags() == old(self).diags() + spec_parse_block(
                old(self).toks(),
                old(self).at(),
            ).1,
            final(self).at() == spec_parse_block(old(self).toks(), old(self).at()).2,
            old(self).at() < final(self).at() <= final(self).toks().len(),
        decreases old(self).toks().len() - old(self).at(), 4int,
    {
        let ghost ts = self.toks();
        let ghost n0 = self.at();
        let ghost d0 = self.diags();
        let token = clone_token(&self.cur_token);
        self.next_token();
        let mut statements: Vec<StatementNode> = Vec::new();
        proof {
            assert(stmts_model(statements@) + spec_parse_stmts(ts, n0 + 1).0 =~= spec_parse_stmts(
                ts,
                n0 + 1,
            ).0);
        }
        while self.cur_token.token_type != TokenType::RBrace && self.cur_token.token_type
            != TokenType::EOF
            invariant
                self.wf(),
                ts == old(self).toks(),
                n0 == old(self).at(),
                d0 == old(self).diags(),
                self.toks() == ts,
                n0 + 1 <= self.at() <= ts.len(),
                spec_parse_stmts(ts, n0 + 1).0 == stmts_model(statements@) + spec_parse_stmts(
                    ts,
                    self.at(),
                ).0,
                d0 + spec_parse_stmts(ts, n0 + 1).1 == self.diags() + spec_parse_stmts(
                    ts,
                    self.at(),
                ).1,
                spec_parse_stmts(ts, n0 + 1).2 == spec_parse_stmts(ts, self.at()).2,
            decreases ts.len() - self.at(),
        {
            let ghost nl = self.at();
            let ghost dpre = self.diags();
            let ghost sm = stmts_model(statements@);
            let ghost ssub = spec_parse_statement(ts, nl);
            let s = self.parse_statement();
            let ghost prev = statements@;
            statements.push(s);
            proof {
                assert(bounded(ts.len() as int, nl, ssub.2) == ssub.2);
                assert(statements@ =~= prev + seq![statements@[statements@.len() - 1]]);
                lemma_stmts_model_concat(prev, seq![statements@[statements@.len() - 1]]);
                lemma_stmts_model_singleton(statements@[statements@.len() - 1]);
                assert(stmts_model(statements@) =~= sm + seq![ssub.0]);
                let rest = spec_parse_stmts(ts, ssub.2);
                assert(sm + (seq![ssub.0] + rest.0) =~= (sm + seq![ssub.0]) + rest.0);
                assert(dpre + (ssub.1 + rest.1) =~= (dpre + ssub.1) + rest.1);
            }
        }
        proof {
            assert(spec_parse_stmts(ts, self.at()) == (
                Seq::<StmtModel>::empty(),
                Seq::<DiagModel>::empty(),
                self.at(),
            ));
            assert(stmts_model(statements@) + Seq::<StmtModel>::empty() =~= stmts_model(
                statements@,
            ));
            assert(self.diags() + Seq::<DiagModel>::empty() =~= self.diags());
        }
        if self.cur_token.token_type == TokenType::RBrace {
            self.next_token();
        } else {
            let ghost miss = seq![
                DiagModel::Mismatch { expected: TokenType::RBrace, found: tok_at(ts, self.at()) },
            ];
            self.push_mismatch(TokenType::RBrace);
            proof {
                assert(d0 + (spec_parse_stmts(ts, n0 + 1).1 + miss) =~= (d0 + spec_parse_stmts(
                    ts,
                    n0 + 1,
                ).1) + miss);
            }
        }
        BlockStatement { token, statements }
    }

    /// Parse a `let` statement: the bound identifier, the assignment
    /// token, the value expression, and an optional terminator. A missing
    /// identifier or assignment token is a diagnostic; the parser then
    /// skips to the next statement boundary and yields a partial node.
    #[verifier::rlimit(60)]
    #[verifier::spinoff_prover]
    fn parse_let_statement(&mut self) -> (s: StatementNode)
        requires
            old(self).wf(),
            kind_at(old(self).toks(), old(self).at()) == TokenType::Let,
        ensures
            final(self).wf(),
            final(self).toks() == old(self).toks(),
            s.model() == spec_parse_let(old(self).toks(), old(self).at()).0,
            final(self).diags() == old(self).diags() + spec_parse_let(
                old(self).toks(),
                old(self).at(),
            ).1,
            final(self).at() == spec_parse_let(old(self).toks(), old(self).at()).2,
            old(self).at() < final(self).at() <= final(self).toks().len(),
        decreases old(self).toks().len() - old(self).at(), 4int,
    {
        let ghost ts = self.toks();
        let ghost n0 = self.at();
        let ghost d0 = self.diags();
        let let_token = clone_token(&self.cur_token);
        if self.peek_token.token_type != TokenType::Ident {
            self.next_token();
            let t = clone_token(&self.cur_token);
            self.push_mismatch(TokenType::Ident);
            self.synchronize();
            proof {
                assert(clip(ts.len() as int, n0 + 1) == n0 + 1);
                lemma_sync_bounds(ts, n0 + 1);
            }
            let name = IdentifierExpression {
                token: Token::new(TokenType::Ident, String::new()),
                value: String::new(),
            };
            return StatementNode::Let(
                LetStatement {
                    token: let_token,
                    name,
                    value: ExpressionNode::Error(ErrorExpression { token: t }),
                },
            );
        }
        self.next_token();
        let name_token = clone_token(&self.cur_token);
        let name_value = name_token.literal.clone();
        let name = IdentifierExpression { token: name_token, value: name_value };
        if self.peek_token.token_type != TokenType::Assign {
            self.next_token();
            let t = clone_token(&self.cur_token);
            self.push_mismatch(TokenType::Assign);
            self.synchronize();
            proof {
                lemma_sync_bounds(ts, n0 + 2);
            }
            return StatementNode::Let(
                LetStatement {
                    token: let_token,
                    name,
                    value: ExpressionNode::Error(ErrorExpression { token: t }),
                },
            );
        }
        self.next_token();
        self.next_token();
        let ghost vsub = spec_parse_expression(ts, n0 + 3, 1);
        let value = self.parse_expression(1);
        proof {
            assert(bounded(ts.len() as int, n0 + 2, vsub.2) == vsub.2);
        }
        if self.cur_token.token_type == TokenType::SemiColon {
            self.next_token();
        }
        StatementNode::Let(LetStatement { token: let_token, name, value })
    }

    /// Parse a `return` statement: the following expression is the return
    /// value, with an optional terminator.
    fn parse_return_statement(&mut self) -> (s: StatementNode)
        requires
            old(self).wf(),
            kind_at(old(self).toks(), old(self).at()) == TokenType::Return,
        ensures
            final(self).wf(),
            final(self).toks() == old(self).toks(),
            s.model() == spec_parse_return(old(self).toks(), old(self).at()).0,
            final(self).diags() == old(self).diags() + spec_parse_return(
                old(self).toks(),
                old(self).at(),
            ).1,
            final(self).at() == spec_parse_return(old(self).toks(), old(self).at()).2,
            old(self).at() < final(self).at() <= final(self).toks().len(),
        decreases old(self).toks().len() - old(self).at(), 4int,
    {
        let ghost ts = self.toks();
        let ghost n0 = self.at();
        let return_token = clone_token(&self.cur_token);
        self.next_token();
        let ghost vsub = spec_parse_expression(ts, n0 + 1, 1);
        let value = self.parse_expression(1);
        proof {
            assert(clip(ts.len() as int, n0 + 1) == n0 + 1);
            assert(bounded(ts.len() as int, n0, vsub.2) == vsub.2);
        }
        if self.cur_token.token_type == TokenType::SemiColon {
            self.next_token();
        }
        StatementNode::Return(ReturnStatement { token: return_token, value })
    }

    /// Parse one statement, dispatched on the current token's kind:
    /// `let`, `return`, a block, or a bare expression statement.
    fn parse_statement(&mut self) -> (s: StatementNode)
        requires
            old(self).wf(),
        ensures
            final(self).wf(),
            final(self).toks() == old(self).toks(),
            s.model() == spec_parse_statement(old(self).toks(), old(self).at()).0,
            final(self).diags() == old(self).diags() + spec_parse_statement(
                old(self).toks(),
                old(self).at(),
            ).1,
            final(self).at() == spec_parse_statement(old(self).toks(), old(self).at()).2,
            old(self).at() <= final(self).at() <= final(self).toks().len(),
            old(self).at() < old(self).toks().len() ==> final(self).at() > old(self).at(),
        decreases old(self).toks().len() - old(self).at(), 5int,
    {
        let ghost ts = self.toks();
        let ghost n0 = self.at();
        let k = self.cur_token.token_type;
        if k == TokenType::Let {
            self.parse_let_statement()
        } else if k == TokenType::Return {
            self.parse_return_statement()
        } else if k == TokenType::LBrace {
            let ghost bsub = spec_parse_block(ts, n0);
            let b = self.parse_block_statement();
            proof {
                assert(bounded(ts.len() as int, n0, bsub.2) == bsub.2);
            }
            StatementNode::Block(b)
        } else {
            let t = clone_token(&self.cur_token);
            let ghost esub = spec_parse_expression(ts, n0, 1);
            let e = self.parse_expression(1);
            proof {
                assert(bounded(ts.len() as int, n0, esub.2) == esub.2);
            }
            let is_error = match &e {
                ExpressionNode::Error(_) => true,
                _ => false,
            };
            if is_error {
                self.synchronize();
                proof {
                    lemma_sync_bounds(ts, esub.2);
                    assert(bounded(ts.len() as int, n0, spec_sync(ts, esub.2)) == spec_sync(
                        ts,
                        esub.2,
                    ));
                }
            } else if self.cur_token.token_type == TokenType::SemiColon {
                self.next_token();
            }
            StatementNode::Expression(ExpressionStatement { token: t, expression: e })
        }
    }

    /// Parse a whole program: statements until the end of input. The
    /// diagnostics list of the parser afterwards holds every diagnostic
    /// found, in order; an empty diagnostics list is the sole signal that
    /// the returned program is fully trustworthy.
    pub fn parse_program(&mut self) -> (prog: ProgramNode)
        requires
            old(self).wf(),
        ensures
            final(self).wf(),
            final(self).toks() == old(self).toks(),
            prog.model() == spec_parse_program(old(self).toks(), old(self).at()).0,
            final(self).diags() == old(self).diags() + spec_parse_program(
                old(self).toks(),
                old(self).at(),
            ).1,
            final(self).at() == spec_parse_program(old(self).toks(), old(self).at()).2,
    {
        let ghost ts = self.toks();
        let ghost n0 = self.at();
        let ghost d0 = self.diags();
        let mut statements: Vec<StatementNode> = Vec::new();
        proof {
            assert(stmts_model(statements@) + spec_parse_program(ts, n0).0 =~= spec_parse_program(
                ts,
                n0,
            ).0);
        }
        while self.cur_token.token_type != TokenType::EOF
            invariant
                self.wf(),
                ts == old(self).toks(),
                n0 == old(self).at(),
                d0 == old(self).diags(),
                self.toks() == ts,
                n0 <= self.at() <= ts.len(),
                spec_parse_program(ts, n0).0 == stmts_model(statements@) + spec_parse_program(
                    ts,
                    self.at(),
                ).0,
                d0 + spec_parse_program(ts, n0).1 == self.diags() + spec_parse_program(
                    ts,
                    self.at(),
                ).1,
                spec_parse_program(ts, n0).2 == spec_parse_program(ts, self.at()).2,
            decreases ts.len() - self.at(),
        {
            let ghost nl = self.at();
            let ghost dpre = self.diags();
            let ghost sm = stmts_model(statements@);
            let ghost ssub = spec_parse_statement(ts, nl);
            let s = self.parse_statement();
            let ghost prev = statements@;
            statements.push(s);
            proof {
                assert(bounded(ts.len() as int, nl, ssub.2) == ssub.2);
                assert(statements@ =~= prev + seq![statements@[statements@.len() - 1]]);
                lemma_stmts_model_concat(prev, seq![statements@[statements@.len() - 1]]);
                lemma_stmts_model_singleton(statements@[statements@.len() - 1]);
                assert(stmts_model(statements@) =~= sm + seq![ssub.0]);
                let rest = spec_parse_program(ts, ssub.2);
                assert(sm + (seq![ssub.0] + rest.0) =~= (sm + seq![ssub.0]) + rest.0);
                assert(dpre + (ssub.1 + rest.1) =~= (dpre + ssub.1) + rest.1);
            }
        }
        proof {
            assert(spec_parse_program(ts, self.at()) == (
                Seq::<StmtModel>::empty(),
                Seq::<DiagModel>::empty(),
                self.at(),
            ));
            assert(stmts_model(statements@) + Seq::<StmtModel>::empty() =~= stmts_model(
                statements@,
            ));
            assert(self.diags() + Seq::<DiagModel>::empty() =~= self.diags());
        }
        ProgramNode { statements }
    }
}

} // verus!

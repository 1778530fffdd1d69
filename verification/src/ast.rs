//! The AST model: the closed node families for programs, statements and
//! expressions, each node retaining the token that introduced it, together
//! with the mathematical model of each node shape.

use vstd::prelude::*;

use crate::token::Token;
use crate::token::TokenType;
use vstd::string::StringExecFns;

verus! {

/// The mathematical shape of an expression.
pub ghost enum ExprModel {
    Ident { name: Seq<char> },
    IntLit { text: Seq<char> },
    BoolLit { value: bool },
    Prefix { op: Seq<char>, right: Box<ExprModel> },
    Infix { left: Box<ExprModel>, op: Seq<char>, right: Box<ExprModel> },
    If {
        cond: Box<ExprModel>,
        consequence: Seq<StmtModel>,
        alternative: Option<Seq<StmtModel>>,
    },
    Func { params: Seq<Seq<char>>, body: Seq<StmtModel> },
    Call { callee: Box<ExprModel>, args: Seq<ExprModel> },
    Error { text: Seq<char> },
}

/// The mathematical shape of a statement.
pub ghost enum StmtModel {
    Let { name: Seq<char>, value: ExprModel },
    Return { value: ExprModel },
    Expr { value: ExprModel },
    Block { body: Seq<StmtModel> },
}

/// An identifier expression: the token and the name it carries.
#[derive(Debug, PartialEq, Eq)]
pub struct IdentifierExpression {
    pub token: Token,
    pub value: String,
}

/// An integer literal; its digits are the token's literal text.
#[derive(Debug, PartialEq, Eq)]
pub struct IntegerLiteral {
    pub token: Token,
}

/// A boolean literal.
#[derive(Debug, PartialEq, Eq)]
pub struct BooleanLiteral {
    pub token: Token,
    pub value: bool,
}

/// A unary operator applied to an operand.
#[derive(Debug, PartialEq, Eq)]
pub struct PrefixExpression {
    pub token: Token,
    pub operator: String,
    pub right: Box<ExpressionNode>,
}

/// A binary operator between two operands.
#[derive(Debug, PartialEq, Eq)]
pub struct InfixExpression {
    pub token: Token,
    pub left: Box<ExpressionNode>,
    pub operator: String,
    pub right: Box<ExpressionNode>,
}

/// `if (condition) { consequence }` with an optional `else { alternative }`.
#[derive(Debug, PartialEq, Eq)]
pub struct IfExpression {
    pub token: Token,
    pub condition: Box<ExpressionNode>,
    pub consequence: BlockStatement,
    pub alternative: Option<BlockStatement>,
}

/// `fn (parameters) { body }`.
#[derive(Debug, PartialEq, Eq)]
pub struct FunctionLiteral {
    pub token: Token,
    pub parameters: Vec<IdentifierExpression>,
    pub body: BlockStatement,
}

/// A callee expression applied to an ordered argument list.
#[derive(Debug, PartialEq, Eq)]
pub struct CallExpression {
    pub token: Token,
    pub function: Box<ExpressionNode>,
    pub arguments: Vec<ExpressionNode>,
}

/// The placeholder produced where an expression was expected but no rule
/// matched the token found; it retains that token.
#[derive(Debug, PartialEq, Eq)]
pub struct ErrorExpression {
    pub token: Token,
}

/// The closed set of expression variants.
#[derive(Debug, PartialEq, Eq)]
pub enum ExpressionNode {
    Identifier(IdentifierExpression),
    Integer(IntegerLiteral),
    Boolean(BooleanLiteral),
    Prefix(PrefixExpression),
    Infix(InfixExpression),
    If(IfExpression),
    Function(FunctionLiteral),
    Call(CallExpression),
    Error(ErrorExpression),
}

/// A `let` statement binding a name to an expression.
#[derive(Debug, PartialEq, Eq)]
pub struct LetStatement {
    pub token: Token,
    pub name: IdentifierExpression,
    pub value: ExpressionNode,
}

/// A `return` statement yielding an expression.
#[derive(Debug, PartialEq, Eq)]
pub struct ReturnStatement {
    pub token: Token,
    pub value: ExpressionNode,
}

/// A bare expression in statement position.
#[derive(Debug, PartialEq, Eq)]
pub struct ExpressionStatement {
    pub token: Token,
    pub expression: ExpressionNode,
}

/// An ordered sequence of statements forming a scope body.
#[derive(Debug, PartialEq, Eq)]
pub struct BlockStatement {
    pub token: Token,
    pub statements: Vec<StatementNode>,
}

/// The closed set of statement variants.
#[derive(Debug, PartialEq, Eq)]
pub enum StatementNode {
    Let(LetStatement),
    Return(ReturnStatement),
    Expression(ExpressionStatement),
    Block(BlockStatement),
}

/// The root of a parse result: the ordered top-level statements.
#[derive(Debug, PartialEq, Eq)]
pub struct ProgramNode {
    pub statements: Vec<StatementNode>,
}

/// Any node of the tree.
pub enum Node {
    Program(ProgramNode),
    Statement(StatementNode),
    Expression(ExpressionNode),
}

impl ExpressionNode {
    /// The mathematical shape of this expression.
    pub open spec fn model(self) -> ExprModel
        decreases self,
    {
        match self {
            ExpressionNode::Identifier(i) => ExprModel::Ident { name: i.value@ },
            ExpressionNode::Integer(n) => ExprModel::IntLit { text: n.token.literal@ },
            ExpressionNode::Boolean(b) => ExprModel::BoolLit { value: b.value },
            ExpressionNode::Prefix(p) => ExprModel::Prefix {
                op: p.operator@,
                right: Box::new((*p.right).model()),
            },
            ExpressionNode::Infix(i) => ExprModel::Infix {
                left: Box::new((*i.left).model()),
                op: i.operator@,
                right: Box::new((*i.right).model()),
            },
            ExpressionNode::If(i) => ExprModel::If {
                cond: Box::new((*i.condition).model()),
                consequence: stmts_model(i.consequence.statements@),
                alternative: match i.alternative {
                    Some(b) => Some(stmts_model(b.statements@)),
                    None => None,
                },
            },
            ExpressionNode::Function(f) => ExprModel::Func {
                params: Seq::new(f.parameters@.len(), |k: int| f.parameters@[k].value@),
                body: stmts_model(f.body.statements@),
            },
            ExpressionNode::Call(c) => ExprModel::Call {
                callee: Box::new((*c.function).model()),
                args: exprs_model(c.arguments@),
            },
            ExpressionNode::Error(e) => ExprModel::Error { text: e.token.literal@ },
        }
    }
}

impl StatementNode {
    /// The mathematical shape of this statement.
    pub open spec fn model(self) -> StmtModel
        decreases self,
    {
        match self {
            StatementNode::Let(l) => StmtModel::Let { name: l.name.value@, value: l.value.model() },
            StatementNode::Return(r) => StmtModel::Return { value: r.value.model() },
            StatementNode::Expression(e) => StmtModel::Expr { value: e.expression.model() },
            StatementNode::Block(b) => StmtModel::Block { body: stmts_model(b.statements@) },
        }
    }
}

/// The shapes of a sequence of statements.
pub open spec fn stmts_model(ss: Seq<StatementNode>) -> Seq<StmtModel>
    decreases ss,
{
    if ss.len() == 0 {
        Seq::empty()
    } else {
        seq![ss[0].model()] + stmts_model(ss.drop_first())
    }
}

/// The shapes of a sequence of expressions.
pub open spec fn exprs_model(es: Seq<ExpressionNode>) -> Seq<ExprModel>
    decreases es,
{
    if es.len() == 0 {
        Seq::empty()
    } else {
        seq![es[0].model()] + exprs_model(es.drop_first())
    }
}

impl ProgramNode {
    /// The mathematical shape of the whole program.
    pub open spec fn model(self) -> Seq<StmtModel> {
        stmts_model(self.statements@)
    }
}

impl StatementNode {
    /// The token that introduced this statement.
    pub open spec fn spec_token(self) -> Token {
        match self {
            StatementNode::Let(l) => l.token,
            StatementNode::Return(r) => r.token,
            StatementNode::Expression(e) => e.token,
            StatementNode::Block(b) => b.token,
        }
    }

    /// The literal of the token that introduced this statement.
    pub fn token_literal(&self) -> (r: String)
        ensures
            r@ == self.spec_token().literal@,
    {
        match self {
            StatementNode::Let(l) => l.token.literal.clone(),
            StatementNode::Return(r) => r.token.literal.clone(),
            StatementNode::Expression(e) => e.token.literal.clone(),
            StatementNode::Block(b) => b.token.literal.clone(),
        }
    }
}

impl ExpressionNode {
    /// The token that introduced this expression.
    pub open spec fn spec_token(self) -> Token {
        match self {
            ExpressionNode::Identifier(i) => i.token,
            ExpressionNode::Integer(n) => n.token,
            ExpressionNode::Boolean(b) => b.token,
            ExpressionNode::Prefix(p) => p.token,
            ExpressionNode::Infix(i) => i.token,
            ExpressionNode::If(i) => i.token,
            ExpressionNode::Function(f) => f.token,
            ExpressionNode::Call(c) => c.token,
            ExpressionNode::Error(e) => e.token,
        }
    }

    /// The literal of the token that introduced this expression.
    pub fn token_literal(&self) -> (r: String)
        ensures
            r@ == self.spec_token().literal@,
    {
        match self {
            ExpressionNode::Identifier(i) => i.token.literal.clone(),
            ExpressionNode::Integer(n) => n.token.literal.clone(),
            ExpressionNode::Boolean(b) => b.token.literal.clone(),
            ExpressionNode::Prefix(p) => p.token.literal.clone(),
            ExpressionNode::Infix(i) => i.token.literal.clone(),
            ExpressionNode::If(i) => i.token.literal.clone(),
            ExpressionNode::Function(f) => f.token.literal.clone(),
            ExpressionNode::Call(c) => c.token.literal.clone(),
            ExpressionNode::Error(e) => e.token.literal.clone(),
        }
    }
}

impl Node {
    /// The literal of the node's introducing token; for a program, the
    /// literal of its first statement, or the empty string for an empty
    /// program.
    pub fn token_literal(&self) -> (r: String)
        ensures
            r@ == (match self {
                Node::Program(p) => if p.statements@.len() > 0 {
                    p.statements@[0].spec_token().literal@
                } else {
                    Seq::<char>::empty()
                },
                Node::Statement(s) => s.spec_token().literal@,
                Node::Expression(e) => e.spec_token().literal@,
            }),
    {
        match self {
            Node::Program(p) => {
                if p.statements.len() > 0 {
                    p.statements[0].token_literal()
                } else {
                    String::new()
                }
            },
            Node::Statement(s) => s.token_literal(),
            Node::Expression(e) => e.token_literal(),
        }
    }
}

/// The fully parenthesized text of an expression shape: literals and
/// identifiers echo their own text, every prefix and infix application is
/// wrapped in parentheses, and composite forms echo their keywords.
pub open spec fn expr_text(m: ExprModel) -> Seq<char>
    decreases m,
{
    match m {
        ExprModel::Ident { name } => name,
        ExprModel::IntLit { text } => text,
        ExprModel::BoolLit { value } => if value {
            "true"@
        } else {
            "false"@
        },
        ExprModel::Prefix { op, right } => "("@ + op + expr_text(*right) + ")"@,
        ExprModel::Infix { left, op, right } => "("@ + expr_text(*left) + " "@ + op + " "@
            + expr_text(*right) + ")"@,
        ExprModel::If { cond, consequence, alternative } => match alternative {
            Some(a) => "if"@ + expr_text(*cond) + " "@ + stmts_text(consequence) + "else "@
                + stmts_text(a),
            None => "if"@ + expr_text(*cond) + " "@ + stmts_text(consequence),
        },
        ExprModel::Func { params, body } => "fn("@ + params_join(params) + ") "@ + stmts_text(
            body,
        ),
        ExprModel::Call { callee, args } => expr_text(*callee) + "("@ + exprs_join(args) + ")"@,
        ExprModel::Error { text } => text,
    }
}

/// The text of a statement shape.
pub open spec fn stmt_text(m: StmtModel) -> Seq<char>
    decreases m,
{
    match m {
        StmtModel::Let { name, value } => "let "@ + name + " = "@ + expr_text(value) + ";"@,
        StmtModel::Return { value } => "return "@ + expr_text(value) + ";"@,
        StmtModel::Expr { value } => expr_text(value),
        StmtModel::Block { body } => stmts_text(body),
    }
}

/// The text of a statement sequence: the statements' texts, concatenated.
pub open spec fn stmts_text(ms: Seq<StmtModel>) -> Seq<char>
    decreases ms,
{
    if ms.len() == 0 {
        Seq::empty()
    } else {
        stmts_text(ms.drop_last()) + stmt_text(ms.last())
    }
}

/// The texts of an expression sequence, separated by commas.
pub open spec fn exprs_join(ms: Seq<ExprModel>) -> Seq<char>
    decreases ms,
{
    if ms.len() == 0 {
        Seq::empty()
    } else if ms.len() == 1 {
        expr_text(ms.last())
    } else {
        exprs_join(ms.drop_last()) + ", "@ + expr_text(ms.last())
    }
}

/// A sequence of names, separated by commas.
pub open spec fn params_join(ps: Seq<Seq<char>>) -> Seq<char>
    decreases ps,
{
    if ps.len() == 0 {
        Seq::empty()
    } else if ps.len() == 1 {
        ps.last()
    } else {
        params_join(ps.drop_last()) + ", "@ + ps.last()
    }
}

pub proof fn lemma_stmts_model_concat(a: Seq<StatementNode>, b: Seq<StatementNode>)
    ensures
        stmts_model(a + b) == stmts_model(a) + stmts_model(b),
    decreases a,
{
    if a.len() == 0 {
        assert(a + b =~= b);
        assert(stmts_model(a) + stmts_model(b) =~= stmts_model(b));
    } else {
        assert((a + b).drop_first() =~= a.drop_first() + b);
        lemma_stmts_model_concat(a.drop_first(), b);
        assert(seq![(a + b)[0].model()] + (stmts_model(a.drop_first()) + stmts_model(b))
            =~= stmts_model(a) + stmts_model(b));
    }
}

pub proof fn lemma_stmts_model_len(a: Seq<StatementNode>)
    ensures
        stmts_model(a).len() == a.len(),
    decreases a,
{
    if a.len() > 0 {
        lemma_stmts_model_len(a.drop_first());
    }
}

pub proof fn lemma_stmts_model_singleton(s: StatementNode)
    ensures
        stmts_model(seq![s]) =~= seq![s.model()],
{
    assert(seq![s].drop_first() =~= Seq::<StatementNode>::empty());
    assert(stmts_model(Seq::<StatementNode>::empty()) =~= Seq::<StmtModel>::empty());
}

pub proof fn lemma_exprs_model_singleton(e: ExpressionNode)
    ensures
        exprs_model(seq![e]) =~= seq![e.model()],
{
    assert(seq![e].drop_first() =~= Seq::<ExpressionNode>::empty());
    assert(exprs_model(Seq::<ExpressionNode>::empty()) =~= Seq::<ExprModel>::empty());
}

pub proof fn lemma_exprs_model_concat(a: Seq<ExpressionNode>, b: Seq<ExpressionNode>)
    ensures
        exprs_model(a + b) == exprs_model(a) + exprs_model(b),
    decreases a,
{
    if a.len() == 0 {
        assert(a + b =~= b);
        assert(exprs_model(a) + exprs_model(b) =~= exprs_model(b));
    } else {
        assert((a + b).drop_first() =~= a.drop_first() + b);
        lemma_exprs_model_concat(a.drop_first(), b);
        assert(seq![(a + b)[0].model()] + (exprs_model(a.drop_first()) + exprs_model(b))
            =~= exprs_model(a) + exprs_model(b));
    }
}

pub proof fn lemma_exprs_model_len(a: Seq<ExpressionNode>)
    ensures
        exprs_model(a).len() == a.len(),
    decreases a,
{
    if a.len() > 0 {
        lemma_exprs_model_len(a.drop_first());
    }
}

impl IdentifierExpression {
    /// Build an identifier expression carrying the given name.
    pub fn new(identifier: &str) -> (r: IdentifierExpression)
        ensures
            r.value@ == identifier@,
            r.token@.kind == TokenType::Ident,
            r.token@.text == identifier@,
    {
        let token = Token::new(TokenType::Ident, identifier.to_owned());
        let value = identifier.to_owned();
        IdentifierExpression { token, value }
    }
}

impl ExpressionNode {
    /// Render this expression in fully parenthesized form.
    pub fn to_text(&self) -> (r: String)
        ensures
            r@ == expr_text(self.model()),
        decreases self,
    {
        match self {
            ExpressionNode::Identifier(i) => i.value.clone(),
            ExpressionNode::Integer(n) => n.token.literal.clone(),
            ExpressionNode::Boolean(b) => {
                if b.value {
                    String::from_str("true")
                } else {
                    String::from_str("false")
                }
            },
            ExpressionNode::Prefix(p) => {
                let mut out = String::from_str("(");
                out.append(p.operator.as_str());
                let rt = p.right.to_text();
                out.append(rt.as_str());
                out.append(")");
                out
            },
            ExpressionNode::Infix(i) => {
                let mut out = String::from_str("(");
                let lt = i.left.to_text();
                out.append(lt.as_str());
                out.append(" ");
                out.append(i.operator.as_str());
                out.append(" ");
                let rt = i.right.to_text();
                out.append(rt.as_str());
                out.append(")");
                out
            },
            ExpressionNode::If(i) => {
                let mut out = String::from_str("if");
                let ct = i.condition.to_text();
                out.append(ct.as_str());
                out.append(" ");
                let bt = i.consequence.to_text();
                out.append(bt.as_str());
                match &i.alternative {
                    Some(alt) => {
                        out.append("else ");
                        let at = alt.to_text();
                        out.append(at.as_str());
                    },
                    None => {},
                }
                out
            },
            ExpressionNode::Function(f) => {
                let mut out = String::from_str("fn(");
                let ps = f.params_to_text();
                out.append(ps.as_str());
                out.append(") ");
                let bt = f.body.to_text();
                out.append(bt.as_str());
                out
            },
            ExpressionNode::Call(c) => {
                let ft = c.function.to_text();
                let mut out = ft;
                out.append("(");
                let ar = c.args_to_text();
                out.append(ar.as_str());
                out.append(")");
                out
            },
            ExpressionNode::Error(e) => e.token.literal.clone(),
        }
    }
}

impl FunctionLiteral {
    /// Render the parameter list, comma separated.
    fn params_to_text(&self) -> (r: String)
        ensures
            r@ == params_join(Seq::new(self.parameters@.len(), |k: int| self.parameters@[k].value@)),
    {
        let ghost pm = Seq::new(self.parameters@.len(), |k: int| self.parameters@[k].value@);
        let mut ps = String::new();
        let mut i: usize = 0;
        while i < self.parameters.len()
            invariant
                0 <= i <= self.parameters@.len(),
                pm == Seq::new(self.parameters@.len(), |k: int| self.parameters@[k].value@),
                ps@ == params_join(pm.take(i as int)),
            decreases self.parameters@.len() - i,
        {
            if i > 0 {
                ps.append(", ");
            }
            ps.append(self.parameters[i].value.as_str());
            i = i + 1;
            proof {
                assert(pm.take(i as int).drop_last() =~= pm.take(i as int - 1));
                assert(ps@ =~= params_join(pm.take(i as int)));
            }
        }
        proof {
            assert(pm.take(self.parameters@.len() as int) =~= pm);
        }
        ps
    }
}

impl CallExpression {
    /// Render the argument list, comma separated.
    fn args_to_text(&self) -> (r: String)
        ensures
            r@ == exprs_join(exprs_model(self.arguments@)),
        decreases self,
    {
        let mut args = String::new();
        let mut i: usize = 0;
        while i < self.arguments.len()
            invariant
                0 <= i <= self.arguments@.len(),
                args@ == exprs_join(exprs_model(self.arguments@.take(i as int))),
            decreases self.arguments@.len() - i,
        {
            if i > 0 {
                args.append(", ");
            }
            let at = self.arguments[i].to_text();
            args.append(at.as_str());
            i = i + 1;
            proof {
                let j = i as int;
                assert(self.arguments@.take(j) =~= self.arguments@.take(j - 1) + seq![
                    self.arguments@[j - 1],
                ]);
                lemma_exprs_model_concat(self.arguments@.take(j - 1), seq![self.arguments@[j - 1]]);
                lemma_exprs_model_len(self.arguments@.take(j - 1));
                lemma_exprs_model_singleton(self.arguments@[j - 1]);
                assert(exprs_model(self.arguments@.take(j)).drop_last() =~= exprs_model(
                    self.arguments@.take(j - 1),
                ));
                assert(args@ =~= exprs_join(exprs_model(self.arguments@.take(j))));
            }
        }
        proof {
            assert(self.arguments@.take(self.arguments@.len() as int) =~= self.arguments@);
        }
        args
    }
}

impl StatementNode {
    /// Render this statement as text.
    pub fn to_text(&self) -> (r: String)
        ensures
            r@ == stmt_text(self.model()),
        decreases self,
    {
        match self {
            StatementNode::Let(l) => {
                let mut out = String::from_str("let ");
                out.append(l.name.value.as_str());
                out.append(" = ");
                let vt = l.value.to_text();
                out.append(vt.as_str());
                out.append(";");
                out
            },
            StatementNode::Return(r) => {
                let mut out = String::from_str("return ");
                let vt = r.value.to_text();
                out.append(vt.as_str());
                out.append(";");
                out
            },
            StatementNode::Expression(e) => e.expression.to_text(),
            StatementNode::Block(b) => b.to_text(),
        }
    }
}

impl BlockStatement {
    /// Render the block's statements, concatenated in order.
    pub fn to_text(&self) -> (r: String)
        ensures
            r@ == stmts_text(stmts_model(self.statements@)),
        decreases self,
    {
        let mut out = String::new();
        let mut i: usize = 0;
        while i < self.statements.len()
            invariant
                0 <= i <= self.statements@.len(),
                out@ == stmts_text(stmts_model(self.statements@.take(i as int))),
            decreases self.statements@.len() - i,
        {
            let st = self.statements[i].to_text();
            out.append(st.as_str());
            i = i + 1;
            proof {
                let j = i as int;
                assert(self.statements@.take(j) =~= self.statements@.take(j - 1) + seq![
                    self.statements@[j - 1],
                ]);
                lemma_stmts_model_concat(self.statements@.take(j - 1), seq![self.statements@[j
                    - 1]]);
                lemma_stmts_model_len(self.statements@.take(j - 1));
                lemma_stmts_model_singleton(self.statements@[j - 1]);
                assert(stmts_model(self.statements@.take(j)).drop_last() =~= stmts_model(
                    self.statements@.take(j - 1),
                ));
                assert(out@ =~= stmts_text(stmts_model(self.statements@.take(j))));
            }
        }
        proof {
            assert(self.statements@.take(self.statements@.len() as int) =~= self.statements@);
        }
        out
    }
}

impl ProgramNode {
    /// Render the program's statements, concatenated in order.
    pub fn to_text(&self) -> (r: String)
        ensures
            r@ == stmts_text(self.model()),
    {
        let mut out = String::new();
        let mut i: usize = 0;
        while i < self.statements.len()
            invariant
                0 <= i <= self.statements@.len(),
                out@ == stmts_text(stmts_model(self.statements@.take(i as int))),
            decreases self.statements@.len() - i,
        {
            let st = self.statements[i].to_text();
            out.append(st.as_str());
            i = i + 1;
            proof {
                let j = i as int;
                assert(self.statements@.take(j) =~= self.statements@.take(j - 1) + seq![
                    self.statements@[j - 1],
                ]);
                lemma_stmts_model_concat(self.statements@.take(j - 1), seq![self.statements@[j
                    - 1]]);
                lemma_stmts_model_len(self.statements@.take(j - 1));
                lemma_stmts_model_singleton(self.statements@[j - 1]);
                assert(stmts_model(self.statements@.take(j)).drop_last() =~= stmts_model(
                    self.statements@.take(j - 1),
                ));
                assert(out@ =~= stmts_text(stmts_model(self.statements@.take(j))));
            }
        }
        proof {
            assert(self.statements@.take(self.statements@.len() as int) =~= self.statements@);
        }
        out
    }
}

} // verus!

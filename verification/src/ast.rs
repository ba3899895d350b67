//! The abstract syntax of Gello programs.
use vstd::prelude::*;

verus! {

/// Prefix operators.
#[derive(Clone, Copy, Debug, PartialEq, Eq, Structural)]
pub enum UnaryOp {
    Neg,
    Not,
}

/// Infix operators.
#[derive(Clone, Copy, Debug, PartialEq, Eq, Structural)]
pub enum BinaryOp {
    Add,
    Sub,
    Mul,
    Div,
    Mod,
    Eq,
    Ne,
    Lt,
    Le,
    Gt,
    Ge,
    And,
    Or,
}

/// Expressions. A number literal keeps its source text.
#[derive(Debug)]
#[allow(inconsistent_fields)]
pub enum Expr {
    Number(String),
    StringLit(String),
    Bool(bool),
    Null,
    Identifier(String),
    Unary { op: UnaryOp, right: Box<Expr> },
    Binary { left: Box<Expr>, op: BinaryOp, right: Box<Expr> },
    Assign { name: String, value: Box<Expr> },
    Lambda { params: Vec<String>, body: Vec<Stmt> },
    Array(Vec<Expr>),
    Index { array: Box<Expr>, index: Box<Expr> },
    Call { callee: Box<Expr>, args: Vec<Expr> },
}

/// Statements.
#[derive(Debug)]
pub enum Stmt {
    Let { name: String, value: Expr },
    Fn { name: String, params: Vec<String>, body: Vec<Stmt> },
    Print(Expr),
    Expression(Expr),
    If { condition: Expr, then_block: Vec<Stmt>, else_block: Option<Vec<Stmt>> },
    While { condition: Expr, body: Vec<Stmt> },
    Return(Expr),
}

/// The mathematical model of an expression: strings and lists become sequences.
#[allow(inconsistent_fields)]
pub enum ExprV {
    Number(Seq<char>),
    StringLit(Seq<char>),
    Bool(bool),
    Null,
    Identifier(Seq<char>),
    Unary { op: UnaryOp, right: Box<ExprV> },
    Binary { left: Box<ExprV>, op: BinaryOp, right: Box<ExprV> },
    Assign { name: Seq<char>, value: Box<ExprV> },
    Lambda { params: Seq<Seq<char>>, body: Seq<StmtV> },
    Array(Seq<ExprV>),
    Index { array: Box<ExprV>, index: Box<ExprV> },
    Call { callee: Box<ExprV>, args: Seq<ExprV> },
}

/// The mathematical model of a statement.
pub enum StmtV {
    Let { name: Seq<char>, value: ExprV },
    Fn { name: Seq<char>, params: Seq<Seq<char>>, body: Seq<StmtV> },
    Print(ExprV),
    Expression(ExprV),
    If { condition: ExprV, then_block: Seq<StmtV>, else_block: Option<Seq<StmtV>> },
    While { condition: ExprV, body: Seq<StmtV> },
    Return(ExprV),
}

/// The models of a list of names.
pub open spec fn names_view(s: Seq<String>) -> Seq<Seq<char>> {
    Seq::new(s.len(), |i: int| s[i]@)
}

pub open spec fn expr_view(e: Expr) -> ExprV
    decreases e,
{
    match e {
        Expr::Number(s) => ExprV::Number(s@),
        Expr::StringLit(s) => ExprV::StringLit(s@),
        Expr::Bool(b) => ExprV::Bool(b),
        Expr::Null => ExprV::Null,
        Expr::Identifier(s) => ExprV::Identifier(s@),
        Expr::Unary { op, right } => ExprV::Unary { op, right: Box::new(expr_view(*right)) },
        Expr::Binary { left, op, right } => ExprV::Binary {
            left: Box::new(expr_view(*left)),
            op,
            right: Box::new(expr_view(*right)),
        },
        Expr::Assign { name, value } => ExprV::Assign {
            name: name@,
            value: Box::new(expr_view(*value)),
        },
        Expr::Lambda { params, body } => ExprV::Lambda {
            params: names_view(params@),
            body: stmts_view(body@),
        },
        Expr::Array(es) => ExprV::Array(exprs_view(es@)),
        Expr::Index { array, index } => ExprV::Index {
            array: Box::new(expr_view(*array)),
            index: Box::new(expr_view(*index)),
        },
        Expr::Call { callee, args } => ExprV::Call {
            callee: Box::new(expr_view(*callee)),
            args: exprs_view(args@),
        },
    }
}

pub open spec fn exprs_view(s: Seq<Expr>) -> Seq<ExprV>
    decreases s,
{
    if s.len() == 0 {
        Seq::empty()
    } else {
        exprs_view(s.subrange(0, s.len() - 1)).push(expr_view(s[s.len() - 1]))
    }
}

pub open spec fn stmt_view(st: Stmt) -> StmtV
    decreases st,
{
    match st {
        Stmt::Let { name, value } => StmtV::Let { name: name@, value: expr_view(value) },
        Stmt::Fn { name, params, body } => StmtV::Fn {
            name: name@,
            params: names_view(params@),
            body: stmts_view(body@),
        },
        Stmt::Print(e) => StmtV::Print(expr_view(e)),
        Stmt::Expression(e) => StmtV::Expression(expr_view(e)),
        Stmt::If { condition, then_block, else_block } => StmtV::If {
            condition: expr_view(condition),
            then_block: stmts_view(then_block@),
            else_block: match else_block {
                Some(b) => Some(stmts_view(b@)),
                None => None,
            },
        },
        Stmt::While { condition, body } => StmtV::While {
            condition: expr_view(condition),
            body: stmts_view(body@),
        },
        Stmt::Return(e) => StmtV::Return(expr_view(e)),
    }
}

pub open spec fn stmts_view(s: Seq<Stmt>) -> Seq<StmtV>
    decreases s,
{
    if s.len() == 0 {
        Seq::empty()
    } else {
        stmts_view(s.subrange(0, s.len() - 1)).push(stmt_view(s[s.len() - 1]))
    }
}

impl View for Expr {
    type V = ExprV;

    open spec fn view(&self) -> ExprV {
        expr_view(*self)
    }
}

impl View for Stmt {
    type V = StmtV;

    open spec fn view(&self) -> StmtV {
        stmt_view(*self)
    }
}

pub proof fn lemma_exprs_view(s: Seq<Expr>)
    ensures
        exprs_view(s).len() == s.len(),
        forall|i: int| 0 <= i < s.len() ==> #[trigger] exprs_view(s)[i] == expr_view(s[i]),
    decreases s.len(),
{
    if s.len() > 0 {
        let t = s.subrange(0, s.len() - 1);
        lemma_exprs_view(t);
        assert forall|i: int| 0 <= i < s.len() implies #[trigger] exprs_view(s)[i] == expr_view(
            s[i],
        ) by {
            if i < s.len() - 1 {
                assert(t[i] == s[i]);
            }
        }
    }
}

pub proof fn lemma_stmts_view(s: Seq<Stmt>)
    ensures
        stmts_view(s).len() == s.len(),
        forall|i: int| 0 <= i < s.len() ==> #[trigger] stmts_view(s)[i] == stmt_view(s[i]),
    decreases s.len(),
{
    if s.len() > 0 {
        let t = s.subrange(0, s.len() - 1);
        lemma_stmts_view(t);
        assert forall|i: int| 0 <= i < s.len() implies #[trigger] stmts_view(s)[i] == stmt_view(
            s[i],
        ) by {
            if i < s.len() - 1 {
                assert(t[i] == s[i]);
            }
        }
    }
}

/// The model of `s.push(e)` extends the model of `s`.
pub proof fn lemma_exprs_view_push(s: Seq<Expr>, e: Expr)
    ensures
        exprs_view(s.push(e)) == exprs_view(s).push(expr_view(e)),
{
    assert(s.push(e).subrange(0, s.len() as int) =~= s);
}

pub proof fn lemma_stmts_view_push(s: Seq<Stmt>, e: Stmt)
    ensures
        stmts_view(s.push(e)) == stmts_view(s).push(stmt_view(e)),
{
    assert(s.push(e).subrange(0, s.len() as int) =~= s);
}


/// A copy of a list of names.
pub fn copy_names(v: &Vec<String>) -> (r: Vec<String>)
    ensures
        names_view(r@) == names_view(v@),
{
    let mut out: Vec<String> = Vec::new();
    let mut i: usize = 0;
    while i < v.len()
        invariant
            i <= v@.len(),
            out@.len() == i,
            forall|j: int| 0 <= j < i ==> out@[j]@ == v@[j]@,
        decreases v@.len() - i,
    {
        out.push(v[i].clone());
        i = i + 1;
    }
    assert(names_view(out@) =~= names_view(v@));
    out
}

impl Expr {
    /// A copy of this expression.
    pub fn duplicate(&self) -> (r: Expr)
        ensures
            r@ == self@,
        decreases self,
    {
        match self {
            Expr::Number(s) => Expr::Number(s.clone()),
            Expr::StringLit(s) => Expr::StringLit(s.clone()),
            Expr::Bool(b) => Expr::Bool(*b),
            Expr::Null => Expr::Null,
            Expr::Identifier(s) => Expr::Identifier(s.clone()),
            Expr::Unary { op, right } => Expr::Unary { op: *op, right: Box::new((**right).duplicate()) },
            Expr::Binary { left, op, right } => Expr::Binary {
                left: Box::new((**left).duplicate()),
                op: *op,
                right: Box::new((**right).duplicate()),
            },
            Expr::Assign { name, value } => Expr::Assign {
                name: name.clone(),
                value: Box::new((**value).duplicate()),
            },
            Expr::Lambda { params, body } => Expr::Lambda {
                params: copy_names(params),
                body: copy_stmts(body),
            },
            Expr::Array(es) => Expr::Array(copy_exprs(es)),
            Expr::Index { array, index } => Expr::Index {
                array: Box::new((**array).duplicate()),
                index: Box::new((**index).duplicate()),
            },
            Expr::Call { callee, args } => Expr::Call {
                callee: Box::new((**callee).duplicate()),
                args: copy_exprs(args),
            },
        }
    }
}

/// A copy of a list of expressions.
pub fn copy_exprs(v: &Vec<Expr>) -> (r: Vec<Expr>)
    ensures
        exprs_view(r@) == exprs_view(v@),
    decreases v,
{
    let mut out: Vec<Expr> = Vec::new();
    let mut i: usize = 0;
    proof {
        lemma_exprs_view(v@);
    }
    while i < v.len()
        invariant
            i <= v@.len(),
            exprs_view(out@) == exprs_view(v@).subrange(0, i as int),
            exprs_view(v@).len() == v@.len(),
            forall|j: int| 0 <= j < v@.len() ==> #[trigger] exprs_view(v@)[j] == expr_view(v@[j]),
        decreases v@.len() - i,
    {
        assert(decreases_to!(v => v@[i as int]));
        let e = v[i].duplicate();
        proof {
            lemma_exprs_view_push(out@, e);
        }
        out.push(e);
        i = i + 1;
        assert(exprs_view(out@) =~= exprs_view(v@).subrange(0, i as int));
    }
    assert(exprs_view(v@).subrange(0, i as int) =~= exprs_view(v@));
    out
}

impl Stmt {
    /// A copy of this statement.
    pub fn duplicate(&self) -> (r: Stmt)
        ensures
            r@ == self@,
        decreases self,
    {
        match self {
            Stmt::Let { name, value } => Stmt::Let { name: name.clone(), value: value.duplicate() },
            Stmt::Fn { name, params, body } => Stmt::Fn {
                name: name.clone(),
                params: copy_names(params),
                body: copy_stmts(body),
            },
            Stmt::Print(e) => Stmt::Print(e.duplicate()),
            Stmt::Expression(e) => Stmt::Expression(e.duplicate()),
            Stmt::If { condition, then_block, else_block } => Stmt::If {
                condition: condition.duplicate(),
                then_block: copy_stmts(then_block),
                else_block: match else_block {
                    Some(b) => Some(copy_stmts(b)),
                    None => None,
                },
            },
            Stmt::While { condition, body } => Stmt::While {
                condition: condition.duplicate(),
                body: copy_stmts(body),
            },
            Stmt::Return(e) => Stmt::Return(e.duplicate()),
        }
    }
}

/// A copy of a list of statements.
pub fn copy_stmts(v: &Vec<Stmt>) -> (r: Vec<Stmt>)
    ensures
        stmts_view(r@) == stmts_view(v@),
    decreases v,
{
    let mut out: Vec<Stmt> = Vec::new();
    let mut i: usize = 0;
    proof {
        lemma_stmts_view(v@);
    }
    while i < v.len()
        invariant
            i <= v@.len(),
            stmts_view(out@) == stmts_view(v@).subrange(0, i as int),
            stmts_view(v@).len() == v@.len(),
            forall|j: int| 0 <= j < v@.len() ==> #[trigger] stmts_view(v@)[j] == stmt_view(v@[j]),
        decreases v@.len() - i,
    {
        assert(decreases_to!(v => v@[i as int]));
        let e = v[i].duplicate();
        proof {
            lemma_stmts_view_push(out@, e);
        }
        out.push(e);
        i = i + 1;
        assert(stmts_view(out@) =~= stmts_view(v@).subrange(0, i as int));
    }
    assert(stmts_view(v@).subrange(0, i as int) =~= stmts_view(v@));
    out
}

} // verus!

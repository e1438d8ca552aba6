//! Expressions, and their values on a row.
use crate::double::Double;
use crate::types::{DataType, DataTypeView};
use crate::value::{views, Value, ValueView};
use vstd::prelude::*;

pub mod debug;
pub mod eval;
pub mod laws;

pub use eval::eval;

verus! {

/// An operator between two operands.
#[derive(Clone, Copy, Debug, PartialEq, Eq, Structural)]
pub enum BinaryOp {
    Eq,
    NotEq,
    Lt,
    LtEq,
    Gt,
    GtEq,
    And,
    Or,
    Add,
    Sub,
    Mul,
    Div,
    Mod,
}

/// An operator in front of one operand.
#[derive(Clone, Copy, Debug, PartialEq, Eq, Structural)]
pub enum UnaryOp {
    Not,
    Negate,
}

/// An expression.
#[allow(inconsistent_fields)]
#[derive(Debug, PartialEq)]
pub enum Expr {
    /// A column, by its name.
    Column(String),
    /// A value.
    Literal(Value),
    /// An operator between two operands.
    BinaryOp { left: Box<Expr>, op: BinaryOp, right: Box<Expr> },
    /// An operator in front of one operand.
    UnaryOp { op: UnaryOp, expr: Box<Expr> },
    /// A call of a function.
    Function { name: String, args: Vec<Expr> },
    /// IS NULL and IS NOT NULL.
    IsNull { expr: Box<Expr>, negated: bool },
    /// LIKE with a pattern.
    Like { expr: Box<Expr>, pattern: String, negated: bool },
    /// BETWEEN two bounds.
    Between { expr: Box<Expr>, low: Box<Expr>, high: Box<Expr>, negated: bool },
    /// CASE WHEN ... THEN ... ELSE ... END.
    Case {
        operand: Option<Box<Expr>>,
        conditions: Vec<(Expr, Expr)>,
        else_result: Option<Box<Expr>>,
    },
    /// CAST to a type.
    Cast { expr: Box<Expr>, data_type: DataType },
    /// An expression under another name.
    Alias { expr: Box<Expr>, name: String },
    /// All columns.
    Wildcard,
}

/// What an `Expr` holds.
#[allow(inconsistent_fields)]
pub enum ExprView {
    Column(Seq<char>),
    Literal(ValueView),
    BinaryOp { left: Box<ExprView>, op: BinaryOp, right: Box<ExprView> },
    UnaryOp { op: UnaryOp, expr: Box<ExprView> },
    Function { name: Seq<char>, args: Seq<ExprView> },
    IsNull { expr: Box<ExprView>, negated: bool },
    Like { expr: Box<ExprView>, pattern: Seq<char>, negated: bool },
    Between { expr: Box<ExprView>, low: Box<ExprView>, high: Box<ExprView>, negated: bool },
    Case {
        operand: Option<Box<ExprView>>,
        conditions: Seq<(ExprView, ExprView)>,
        else_result: Option<Box<ExprView>>,
    },
    Cast { expr: Box<ExprView>, data_type: DataTypeView },
    Alias { expr: Box<ExprView>, name: Seq<char> },
    Wildcard,
}

impl View for Expr {
    type V = ExprView;

    open spec fn view(&self) -> ExprView {
        expr_view(*self)
    }
}

/// What an expression holds.
pub open spec fn expr_view(e: Expr) -> ExprView
    decreases e,
{
    match e {
        Expr::Column(name) => ExprView::Column(name@),
        Expr::Literal(v) => ExprView::Literal(v@),
        Expr::BinaryOp { left, op, right } => ExprView::BinaryOp {
            left: Box::new(expr_view(*left)),
            op: op,
            right: Box::new(expr_view(*right)),
        },
        Expr::UnaryOp { op, expr } => ExprView::UnaryOp {
            op: op,
            expr: Box::new(expr_view(*expr)),
        },
        Expr::Function { name, args } => ExprView::Function {
            name: name@,
            args: exprs_view(args@),
        },
        Expr::IsNull { expr, negated } => ExprView::IsNull {
            expr: Box::new(expr_view(*expr)),
            negated: negated,
        },
        Expr::Like { expr, pattern, negated } => ExprView::Like {
            expr: Box::new(expr_view(*expr)),
            pattern: pattern@,
            negated: negated,
        },
        Expr::Between { expr, low, high, negated } => ExprView::Between {
            expr: Box::new(expr_view(*expr)),
            low: Box::new(expr_view(*low)),
            high: Box::new(expr_view(*high)),
            negated: negated,
        },
        Expr::Case { operand, conditions, else_result } => ExprView::Case {
            operand: match operand {
                Some(e) => Some(Box::new(expr_view(*e))),
                None => None,
            },
            conditions: branches_view(conditions@),
            else_result: match else_result {
                Some(e) => Some(Box::new(expr_view(*e))),
                None => None,
            },
        },
        Expr::Cast { expr, data_type } => ExprView::Cast {
            expr: Box::new(expr_view(*expr)),
            data_type: data_type@,
        },
        Expr::Alias { expr, name } => ExprView::Alias {
            expr: Box::new(expr_view(*expr)),
            name: name@,
        },
        Expr::Wildcard => ExprView::Wildcard,
    }
}

/// What expressions hold.
pub open spec fn exprs_view(s: Seq<Expr>) -> Seq<ExprView>
    decreases s,
{
    Seq::new(s.len(), |i: int| if 0 <= i < s.len() { expr_view(s[i]) } else { ExprView::Wildcard })
}

/// What the branches of a CASE hold.
pub open spec fn branches_view(s: Seq<(Expr, Expr)>) -> Seq<(ExprView, ExprView)>
    decreases s,
{
    Seq::new(
        s.len(),
        |i: int|
            if 0 <= i < s.len() {
                (expr_view(s[i].0), expr_view(s[i].1))
            } else {
                (ExprView::Wildcard, ExprView::Wildcard)
            },
    )
}

/// What branches hold, one by one.
pub open spec fn branch_views(s: Seq<(Expr, Expr)>) -> Seq<(ExprView, ExprView)> {
    s.map_values(|b: (Expr, Expr)| (b.0@, b.1@))
}

/// What an optional expression holds.
pub open spec fn option_view(e: Option<Box<Expr>>) -> Option<Box<ExprView>> {
    match e {
        Some(e) => Some(Box::new((*e)@)),
        None => None,
    }
}

proof fn lemma_exprs_view(s: Seq<Expr>)
    ensures
        exprs_view(s) == views(s),
{
    assert(exprs_view(s) =~= views(s));
}

proof fn lemma_branches_view(s: Seq<(Expr, Expr)>)
    ensures
        branches_view(s) == branch_views(s),
{
    assert(branches_view(s) =~= branch_views(s));
}

/// A call and a CASE hold what the expressions in them hold.
pub broadcast proof fn lemma_expr_view(e: Expr)
    ensures
        #![trigger e@]
        e is Function ==> e@ == (ExprView::Function {
            name: e->Function_name@,
            args: views(e->args@),
        }),
        e is Case ==> e@ == (ExprView::Case {
            operand: option_view(e->operand),
            conditions: branch_views(e->conditions@),
            else_result: option_view(e->else_result),
        }),
{
    if e is Function {
        lemma_exprs_view(e->args@);
    }
    if e is Case {
        lemma_branches_view(e->conditions@);
    }
}

impl Clone for Expr {
    fn clone(&self) -> (r: Expr)
        ensures
            r@ == self@,
        decreases self,
    {
        broadcast use lemma_expr_view;

        match self {
            Expr::Column(name) => Expr::Column(name.clone()),
            Expr::Literal(v) => Expr::Literal(v.clone()),
            Expr::BinaryOp { left, op, right } => Expr::BinaryOp {
                left: Box::new((**left).clone()),
                op: *op,
                right: Box::new((**right).clone()),
            },
            Expr::UnaryOp { op, expr } => Expr::UnaryOp {
                op: *op,
                expr: Box::new((**expr).clone()),
            },
            Expr::Function { name, args } => {
                let mut r: Vec<Expr> = Vec::new();
                let mut i: usize = 0;
                while i < args.len()
                    invariant
                        i <= args.len(),
                        r.len() == i,
                        forall|j: int| 0 <= j < i ==> r@[j]@ == args@[j]@,
                        decreases_to!(self => args),
                    decreases args.len() - i,
                {
                    r.push(args[i].clone());
                    i = i + 1;
                }
                proof {
                    assert(views(r@) =~= views(args@));
                }
                Expr::Function { name: name.clone(), args: r }
            },
            Expr::IsNull { expr, negated } => Expr::IsNull {
                expr: Box::new((**expr).clone()),
                negated: *negated,
            },
            Expr::Like { expr, pattern, negated } => Expr::Like {
                expr: Box::new((**expr).clone()),
                pattern: pattern.clone(),
                negated: *negated,
            },
            Expr::Between { expr, low, high, negated } => Expr::Between {
                expr: Box::new((**expr).clone()),
                low: Box::new((**low).clone()),
                high: Box::new((**high).clone()),
                negated: *negated,
            },
            Expr::Case { operand, conditions, else_result } => {
                let mut r: Vec<(Expr, Expr)> = Vec::new();
                let mut i: usize = 0;
                while i < conditions.len()
                    invariant
                        i <= conditions.len(),
                        r.len() == i,
                        forall|j: int|
                            0 <= j < i ==> r@[j].0@ == conditions@[j].0@ && r@[j].1@
                                == conditions@[j].1@,
                        decreases_to!(self => conditions),
                    decreases conditions.len() - i,
                {
                    r.push((conditions[i].0.clone(), conditions[i].1.clone()));
                    i = i + 1;
                }
                proof {
                    assert(branch_views(r@) =~= branch_views(conditions@));
                }
                Expr::Case {
                    operand: match operand {
                        Some(e) => Some(Box::new((**e).clone())),
                        None => None,
                    },
                    conditions: r,
                    else_result: match else_result {
                        Some(e) => Some(Box::new((**e).clone())),
                        None => None,
                    },
                }
            },
            Expr::Cast { expr, data_type } => Expr::Cast {
                expr: Box::new((**expr).clone()),
                data_type: data_type.clone(),
            },
            Expr::Alias { expr, name } => Expr::Alias {
                expr: Box::new((**expr).clone()),
                name: name.clone(),
            },
            Expr::Wildcard => Expr::Wildcard,
        }
    }
}

/// Copies expressions.
pub fn clone_exprs(v: &Vec<Expr>) -> (r: Vec<Expr>)
    ensures
        views(r@) == views(v@),
{
    let mut r: Vec<Expr> = Vec::new();
    let mut i: usize = 0;
    while i < v.len()
        invariant
            i <= v.len(),
            r.len() == i,
            forall|j: int| 0 <= j < i ==> r@[j]@ == v@[j]@,
        decreases v.len() - i,
    {
        r.push(v[i].clone());
        i = i + 1;
    }
    proof {
        assert(views(r@) =~= views(v@));
    }
    r
}

/// A column, by its name.
pub fn col(name: &str) -> (r: Expr)
    ensures
        r@ == ExprView::Column(name@),
{
    Expr::Column(name.to_owned())
}

/// A text.
pub fn lit_str(s: &str) -> (r: Expr)
    ensures
        r@ == ExprView::Literal(ValueView::String(s@)),
{
    Expr::Literal(Value::String(s.to_owned()))
}

/// An integer.
pub fn lit_i64(i: i64) -> (r: Expr)
    ensures
        r@ == ExprView::Literal(ValueView::Integer(i)),
{
    Expr::Literal(Value::Integer(i))
}

/// A double.
pub fn lit_f64(f: Double) -> (r: Expr)
    ensures
        r@ == ExprView::Literal(ValueView::Double(f)),
{
    Expr::Literal(Value::Double(f))
}

/// A truth value.
pub fn lit_bool(b: bool) -> (r: Expr)
    ensures
        r@ == ExprView::Literal(ValueView::Boolean(b)),
{
    Expr::Literal(Value::Boolean(b))
}

/// Null.
pub fn lit_null() -> (r: Expr)
    ensures
        r@ == ExprView::Literal(ValueView::Null),
{
    Expr::Literal(Value::Null)
}

/// An operator between two expressions.
pub open spec fn binary(left: ExprView, op: BinaryOp, right: ExprView) -> ExprView {
    ExprView::BinaryOp { left: Box::new(left), op, right: Box::new(right) }
}

fn make_binary(left: Expr, op: BinaryOp, right: Expr) -> (r: Expr)
    ensures
        r@ == binary(left@, op, right@),
{
    Expr::BinaryOp { left: Box::new(left), op, right: Box::new(right) }
}

/// Methods that build larger expressions.
pub trait ExprExt {
    fn eq_expr(self, other: Expr) -> Expr;

    fn neq(self, other: Expr) -> Expr;

    fn lt(self, other: Expr) -> Expr;

    fn lt_eq(self, other: Expr) -> Expr;

    fn gt(self, other: Expr) -> Expr;

    fn gt_eq(self, other: Expr) -> Expr;

    fn and(self, other: Expr) -> Expr;

    fn or(self, other: Expr) -> Expr;

    fn add(self, other: Expr) -> Expr;

    fn sub(self, other: Expr) -> Expr;

    fn mul(self, other: Expr) -> Expr;

    fn div(self, other: Expr) -> Expr;

    fn modulo(self, other: Expr) -> Expr;

    fn alias(self, name: &str) -> Expr;

    fn is_null_expr(self) -> Expr;

    fn is_not_null(self) -> Expr;
}

impl ExprExt for Expr {
    fn eq_expr(self, other: Expr) -> (r: Expr)
        ensures
            r@ == binary(self@, BinaryOp::Eq, other@),
    {
        make_binary(self, BinaryOp::Eq, other)
    }

    fn neq(self, other: Expr) -> (r: Expr)
        ensures
            r@ == binary(self@, BinaryOp::NotEq, other@),
    {
        make_binary(self, BinaryOp::NotEq, other)
    }

    fn lt(self, other: Expr) -> (r: Expr)
        ensures
            r@ == binary(self@, BinaryOp::Lt, other@),
    {
        make_binary(self, BinaryOp::Lt, other)
    }

    fn lt_eq(self, other: Expr) -> (r: Expr)
        ensures
            r@ == binary(self@, BinaryOp::LtEq, other@),
    {
        make_binary(self, BinaryOp::LtEq, other)
    }

    fn gt(self, other: Expr) -> (r: Expr)
        ensures
            r@ == binary(self@, BinaryOp::Gt, other@),
    {
        make_binary(self, BinaryOp::Gt, other)
    }

    fn gt_eq(self, other: Expr) -> (r: Expr)
        ensures
            r@ == binary(self@, BinaryOp::GtEq, other@),
    {
        make_binary(self, BinaryOp::GtEq, other)
    }

    fn and(self, other: Expr) -> (r: Expr)
        ensures
            r@ == binary(self@, BinaryOp::And, other@),
    {
        make_binary(self, BinaryOp::And, other)
    }

    fn or(self, other: Expr) -> (r: Expr)
        ensures
            r@ == binary(self@, BinaryOp::Or, other@),
    {
        make_binary(self, BinaryOp::Or, other)
    }

    fn add(self, other: Expr) -> (r: Expr)
        ensures
            r@ == binary(self@, BinaryOp::Add, other@),
    {
        make_binary(self, BinaryOp::Add, other)
    }

    fn sub(self, other: Expr) -> (r: Expr)
        ensures
            r@ == binary(self@, BinaryOp::Sub, other@),
    {
        make_binary(self, BinaryOp::Sub, other)
    }

    fn mul(self, other: Expr) -> (r: Expr)
        ensures
            r@ == binary(self@, BinaryOp::Mul, other@),
    {
        make_binary(self, BinaryOp::Mul, other)
    }

    fn div(self, other: Expr) -> (r: Expr)
        ensures
            r@ == binary(self@, BinaryOp::Div, other@),
    {
        make_binary(self, BinaryOp::Div, other)
    }

    fn modulo(self, other: Expr) -> (r: Expr)
        ensures
            r@ == binary(self@, BinaryOp::Mod, other@),
    {
        make_binary(self, BinaryOp::Mod, other)
    }

    fn alias(self, name: &str) -> (r: Expr)
        ensures
            r@ == (ExprView::Alias { expr: Box::new(self@), name: name@ }),
    {
        Expr::Alias { expr: Box::new(self), name: name.to_owned() }
    }

    fn is_null_expr(self) -> (r: Expr)
        ensures
            r@ == (ExprView::IsNull { expr: Box::new(self@), negated: false }),
    {
        Expr::IsNull { expr: Box::new(self), negated: false }
    }

    fn is_not_null(self) -> (r: Expr)
        ensures
            r@ == (ExprView::IsNull { expr: Box::new(self@), negated: true }),
    {
        Expr::IsNull { expr: Box::new(self), negated: true }
    }
}

} // verus!

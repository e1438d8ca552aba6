//! The debug texts of expressions.
use crate::expr::{branch_views, lemma_expr_view, BinaryOp, Expr, ExprView, UnaryOp};
use crate::text::{quoted, to_quoted};
use crate::types::data_type_debug;
use crate::value::{bool_text, bool_to_text, value_debug, views};
use vstd::prelude::*;

verus! {

/// The name of an operator.
pub open spec fn binary_op_debug(op: BinaryOp) -> Seq<char> {
    match op {
        BinaryOp::Eq => "Eq"@,
        BinaryOp::NotEq => "NotEq"@,
        BinaryOp::Lt => "Lt"@,
        BinaryOp::LtEq => "LtEq"@,
        BinaryOp::Gt => "Gt"@,
        BinaryOp::GtEq => "GtEq"@,
        BinaryOp::And => "And"@,
        BinaryOp::Or => "Or"@,
        BinaryOp::Add => "Add"@,
        BinaryOp::Sub => "Sub"@,
        BinaryOp::Mul => "Mul"@,
        BinaryOp::Div => "Div"@,
        BinaryOp::Mod => "Mod"@,
    }
}

fn binary_op_name(op: &BinaryOp) -> (r: &'static str)
    ensures
        r@ == binary_op_debug(*op),
{
    match op {
        BinaryOp::Eq => "Eq",
        BinaryOp::NotEq => "NotEq",
        BinaryOp::Lt => "Lt",
        BinaryOp::LtEq => "LtEq",
        BinaryOp::Gt => "Gt",
        BinaryOp::GtEq => "GtEq",
        BinaryOp::And => "And",
        BinaryOp::Or => "Or",
        BinaryOp::Add => "Add",
        BinaryOp::Sub => "Sub",
        BinaryOp::Mul => "Mul",
        BinaryOp::Div => "Div",
        BinaryOp::Mod => "Mod",
    }
}

/// The name of an operator.
pub open spec fn unary_op_debug(op: UnaryOp) -> Seq<char> {
    match op {
        UnaryOp::Not => "Not"@,
        UnaryOp::Negate => "Negate"@,
    }
}

/// The debug text of an expression.
pub open spec fn expr_debug(e: ExprView) -> Seq<char>
    decreases e, 0int,
{
    match e {
        ExprView::Column(name) => "Column("@ + quoted(name) + ")"@,
        ExprView::Literal(v) => "Literal("@ + value_debug(v) + ")"@,
        ExprView::BinaryOp { left, op, right } => "BinaryOp { left: "@ + expr_debug(*left)
            + ", op: "@ + binary_op_debug(op) + ", right: "@ + expr_debug(*right) + " }"@,
        ExprView::UnaryOp { op, expr } => "UnaryOp { op: "@ + unary_op_debug(op) + ", expr: "@
            + expr_debug(*expr) + " }"@,
        ExprView::Function { name, args } => "Function { name: "@ + quoted(name) + ", args: ["@
            + exprs_debug(args, 0) + "] }"@,
        ExprView::IsNull { expr, negated } => "IsNull { expr: "@ + expr_debug(*expr)
            + ", negated: "@ + bool_text(negated) + " }"@,
        ExprView::Like { expr, pattern, negated } => "Like { expr: "@ + expr_debug(*expr)
            + ", pattern: "@ + quoted(pattern) + ", negated: "@ + bool_text(negated) + " }"@,
        ExprView::Between { expr, low, high, negated } => "Between { expr: "@ + expr_debug(*expr)
            + ", low: "@ + expr_debug(*low) + ", high: "@ + expr_debug(*high) + ", negated: "@
            + bool_text(negated) + " }"@,
        ExprView::Case { operand, conditions, else_result } => {
            let first = match operand {
                Some(o) => "Some("@ + expr_debug(*o) + ")"@,
                None => "None"@,
            };
            let last = match else_result {
                Some(r) => "Some("@ + expr_debug(*r) + ")"@,
                None => "None"@,
            };
            "Case { operand: "@ + first + ", conditions: ["@ + branches_debug(conditions, 0)
                + "], else_result: "@ + last + " }"@
        },
        ExprView::Cast { expr, data_type } => "Cast { expr: "@ + expr_debug(*expr)
            + ", data_type: "@ + data_type_debug(data_type) + " }"@,
        ExprView::Alias { expr, name } => "Alias { expr: "@ + expr_debug(*expr) + ", name: "@
            + quoted(name) + " }"@,
        ExprView::Wildcard => "Wildcard"@,
    }
}

/// The debug texts of the expressions from a place on, separated by commas.
pub open spec fn exprs_debug(args: Seq<ExprView>, i: nat) -> Seq<char>
    decreases args, args.len() - i,
{
    if i >= args.len() {
        Seq::empty()
    } else if i + 1 == args.len() {
        expr_debug(args[i as int])
    } else {
        expr_debug(args[i as int]) + ", "@ + exprs_debug(args, i + 1)
    }
}

/// The debug texts of the branches from a place on, separated by commas.
pub open spec fn branches_debug(b: Seq<(ExprView, ExprView)>, i: nat) -> Seq<char>
    decreases b, b.len() - i,
{
    if i >= b.len() {
        Seq::empty()
    } else {
        let text = "("@ + expr_debug(b[i as int].0) + ", "@ + expr_debug(b[i as int].1) + ")"@;
        if i + 1 == b.len() {
            text
        } else {
            text + ", "@ + branches_debug(b, i + 1)
        }
    }
}

fn write_exprs(args: &Vec<Expr>, from: usize) -> (r: String)
    requires
        from <= args.len(),
    ensures
        r@ == exprs_debug(views(args@), from as nat),
    decreases args, args.len() - from,
{
    if from == args.len() {
        return String::new();
    }
    let mut r = args[from].to_debug();
    if from + 1 < args.len() {
        r.append(", ");
        r.append(write_exprs(args, from + 1).as_str());
    }
    r
}

fn write_branches(b: &Vec<(Expr, Expr)>, from: usize) -> (r: String)
    requires
        from <= b.len(),
    ensures
        r@ == branches_debug(branch_views(b@), from as nat),
    decreases b, b.len() - from,
{
    if from == b.len() {
        return String::new();
    }
    let mut r = "(".to_owned();
    r.append(b[from].0.to_debug().as_str());
    r.append(", ");
    r.append(b[from].1.to_debug().as_str());
    r.append(")");
    if from + 1 < b.len() {
        r.append(", ");
        r.append(write_branches(b, from + 1).as_str());
    }
    r
}

/// The debug text of an optional expression.
fn write_option(e: &Option<Box<Expr>>) -> (r: String)
    ensures
        r@ == match *e {
            Some(x) => "Some("@ + expr_debug((*x)@) + ")"@,
            None => "None"@,
        },
    decreases e, 0int,
{
    match e {
        Some(x) => {
            let mut r = "Some(".to_owned();
            r.append((**x).to_debug().as_str());
            r.append(")");
            r
        },
        None => "None".to_owned(),
    }
}

impl Expr {
    /// The debug text of the expression.
    pub fn to_debug(&self) -> (r: String)
        ensures
            r@ == expr_debug(self@),
        decreases self, 0int,
    {
        broadcast use lemma_expr_view;

        let mut r = String::new();
        match self {
            Expr::Column(name) => {
                r.append("Column(");
                r.append(to_quoted(name.as_str()).as_str());
                r.append(")");
            },
            Expr::Literal(v) => {
                r.append("Literal(");
                r.append(v.to_debug().as_str());
                r.append(")");
            },
            Expr::BinaryOp { left, op, right } => {
                r.append("BinaryOp { left: ");
                r.append((**left).to_debug().as_str());
                r.append(", op: ");
                r.append(binary_op_name(op));
                r.append(", right: ");
                r.append((**right).to_debug().as_str());
                r.append(" }");
            },
            Expr::UnaryOp { op, expr } => {
                r.append("UnaryOp { op: ");
                match op {
                    UnaryOp::Not => r.append("Not"),
                    UnaryOp::Negate => r.append("Negate"),
                }
                r.append(", expr: ");
                r.append((**expr).to_debug().as_str());
                r.append(" }");
            },
            Expr::Function { name, args } => {
                r.append("Function { name: ");
                r.append(to_quoted(name.as_str()).as_str());
                r.append(", args: [");
                r.append(write_exprs(args, 0).as_str());
                r.append("] }");
            },
            Expr::IsNull { expr, negated } => {
                r.append("IsNull { expr: ");
                r.append((**expr).to_debug().as_str());
                r.append(", negated: ");
                r.append(bool_to_text(*negated));
                r.append(" }");
            },
            Expr::Like { expr, pattern, negated } => {
                r.append("Like { expr: ");
                r.append((**expr).to_debug().as_str());
                r.append(", pattern: ");
                r.append(to_quoted(pattern.as_str()).as_str());
                r.append(", negated: ");
                r.append(bool_to_text(*negated));
                r.append(" }");
            },
            Expr::Between { expr, low, high, negated } => {
                r.append("Between { expr: ");
                r.append((**expr).to_debug().as_str());
                r.append(", low: ");
                r.append((**low).to_debug().as_str());
                r.append(", high: ");
                r.append((**high).to_debug().as_str());
                r.append(", negated: ");
                r.append(bool_to_text(*negated));
                r.append(" }");
            },
            Expr::Case { operand, conditions, else_result } => {
                r.append("Case { operand: ");
                r.append(write_option(operand).as_str());
                r.append(", conditions: [");
                r.append(write_branches(conditions, 0).as_str());
                r.append("], else_result: ");
                r.append(write_option(else_result).as_str());
                r.append(" }");
            },
            Expr::Cast { expr, data_type } => {
                r.append("Cast { expr: ");
                r.append((**expr).to_debug().as_str());
                r.append(", data_type: ");
                r.append(data_type.to_debug().as_str());
                r.append(" }");
            },
            Expr::Alias { expr, name } => {
                r.append("Alias { expr: ");
                r.append((**expr).to_debug().as_str());
                r.append(", name: ");
                r.append(to_quoted(name.as_str()).as_str());
                r.append(" }");
            },
            Expr::Wildcard => {
                r.append("Wildcard");
            },
        }
        proof {
            assert(r@ =~= expr_debug(self@));
        }
        r
    }
}

} // verus!

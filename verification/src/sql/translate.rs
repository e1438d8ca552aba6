//! Translates names, types and expressions.
use crate::decimal::{read_double, text_to_double};
use crate::error::{fail2, outcome, Error};
use crate::expr::{branch_views, lemma_expr_view, option_view, BinaryOp, Expr, ExprView, UnaryOp};
use crate::sql::ast::{
    branch_pairs, lemma_sql_arguments_view, lemma_sql_expr_view, option_sql, parts_view,
    SqlArgument, SqlArgumentView, SqlArguments, SqlArgumentsView, SqlExpr, SqlExprView, SqlType,
    SqlTypeView, SqlValue, SqlValueView,
};
use crate::text::{chars_of, read_integer, same_text, text_to_integer, IntegerError};
use crate::types::{DataType, DataTypeView};
use crate::value::{views, Value, ValueView};
use vstd::prelude::*;

verus! {

/// Puts what comes before to a list, or keeps an error.
pub open spec fn before_all<T>(before: Seq<T>, r: Result<Seq<T>, Seq<char>>) -> Result<
    Seq<T>,
    Seq<char>,
> {
    match r {
        Ok(rest) => Ok(before + rest),
        Err(e) => Err(e),
    }
}

/// One more can be put to what comes before, or to the rest.
pub proof fn lemma_before_all<T>(before: Seq<T>, x: T, rest: Result<Seq<T>, Seq<char>>)
    ensures
        before_all(before, before_all(seq![x], rest)) == before_all(before.push(x), rest),
{
    if let Ok(s) = rest {
        assert(before + (seq![x] + s) =~= before.push(x) + s);
    }
}

/// Nothing before a list, or nothing behind it, leaves it as it is.
pub proof fn lemma_before_nothing<T>(s: Seq<T>, r: Result<Seq<T>, Seq<char>>)
    ensures
        before_all(Seq::empty(), r) == r,
        before_all(s, Ok(Seq::empty())) == Ok::<Seq<T>, Seq<char>>(s),
{
    if let Ok(x) = r {
        assert(Seq::<T>::empty() + x =~= x);
    }
    assert(s + Seq::<T>::empty() =~= s);
}

/// Texts with dots between them.
pub open spec fn dotted(parts: Seq<Seq<char>>) -> Seq<char>
    decreases parts.len(),
{
    if parts.len() == 0 {
        Seq::empty()
    } else if parts.len() == 1 {
        parts[0]
    } else {
        dotted(parts.drop_last()) + "."@ + parts.last()
    }
}

/// The identifiers among the first `n` parts of a name.
pub open spec fn identifiers(name: Seq<Option<Seq<char>>>, n: nat) -> Seq<Seq<char>>
    decreases n,
{
    if n == 0 || n > name.len() {
        Seq::empty()
    } else {
        let before = identifiers(name, (n - 1) as nat);
        match name[n - 1] {
            Some(text) => before.push(text),
            None => before,
        }
    }
}

/// A name, with dots between its identifiers.
pub open spec fn name_text(name: Seq<Option<Seq<char>>>) -> Seq<char> {
    dotted(identifiers(name, name.len()))
}

fn join_dots(parts: &Vec<String>) -> (r: String)
    ensures
        r@ == dotted(views(parts@)),
{
    let ghost p = views(parts@);
    let mut r = String::new();
    let mut i: usize = 0;
    proof {
        assert(p.take(0) =~= Seq::<Seq<char>>::empty());
    }
    while i < parts.len()
        invariant
            i <= parts.len(),
            p == views(parts@),
            r@ == dotted(p.take(i as int)),
        decreases parts.len() - i,
    {
        proof {
            assert(p.take(i + 1).drop_last() =~= p.take(i as int));
            assert(p.take(i + 1).last() == parts@[i as int]@);
        }
        if i > 0 {
            r.append(".");
        }
        r.append(parts[i].as_str());
        proof {
            if i == 0 {
                assert(r@ =~= parts@[0]@);
            }
        }
        i = i + 1;
    }
    proof {
        assert(p.take(i as int) =~= p);
    }
    r
}

/// A name as text. Parts that are not identifiers are left out.
pub fn object_name_to_string(name: &Vec<Option<String>>) -> (r: String)
    ensures
        r@ == name_text(parts_view(name@)),
{
    let ghost p = parts_view(name@);
    let mut parts: Vec<String> = Vec::new();
    let mut i: usize = 0;
    proof {
        assert(views(parts@) =~= Seq::<Seq<char>>::empty());
    }
    while i < name.len()
        invariant
            i <= name.len(),
            p == parts_view(name@),
            views(parts@) == identifiers(p, i as nat),
        decreases name.len() - i,
    {
        let ghost before = views(parts@);
        if let Some(text) = &name[i] {
            parts.push(text.clone());
            proof {
                assert(views(parts@) =~= before.push(text@));
            }
        }
        i = i + 1;
    }
    join_dots(&parts)
}

/// The type that a type stands for.
pub open spec fn translated_type(t: SqlTypeView) -> Result<DataTypeView, Seq<char>>
    decreases t,
{
    match t {
        SqlTypeView::Boolean => Ok(DataTypeView::Boolean),
        SqlTypeView::Int => Ok(DataTypeView::Integer),
        SqlTypeView::Integer => Ok(DataTypeView::Integer),
        SqlTypeView::BigInt => Ok(DataTypeView::BigInt),
        SqlTypeView::Float => Ok(DataTypeView::Double),
        SqlTypeView::Double => Ok(DataTypeView::Double),
        SqlTypeView::DoublePrecision => Ok(DataTypeView::Double),
        SqlTypeView::Varchar => Ok(DataTypeView::String),
        SqlTypeView::Text => Ok(DataTypeView::String),
        SqlTypeView::String => Ok(DataTypeView::String),
        SqlTypeView::Timestamp => Ok(DataTypeView::Timestamp),
        SqlTypeView::Array(inner) => match inner {
            Some(inner) => match translated_type(*inner) {
                Ok(t) => Ok(DataTypeView::Array(Box::new(t))),
                Err(e) => Err(e),
            },
            None => Ok(DataTypeView::Array(Box::new(DataTypeView::String))),
        },
        SqlTypeView::Other(text) => Err("Unsupported data type: "@ + text),
    }
}

/// Translates a type.
pub fn translate_data_type(t: &SqlType) -> (r: Result<DataType, Error>)
    ensures
        outcome(r) == translated_type(t@),
    decreases t,
{
    match t {
        SqlType::Boolean => Ok(DataType::Boolean),
        SqlType::Int => Ok(DataType::Integer),
        SqlType::Integer => Ok(DataType::Integer),
        SqlType::BigInt => Ok(DataType::BigInt),
        SqlType::Float => Ok(DataType::Double),
        SqlType::Double => Ok(DataType::Double),
        SqlType::DoublePrecision => Ok(DataType::Double),
        SqlType::Varchar => Ok(DataType::String),
        SqlType::Text => Ok(DataType::String),
        SqlType::String => Ok(DataType::String),
        SqlType::Timestamp => Ok(DataType::Timestamp),
        SqlType::Array(inner) => match inner {
            Some(inner) => {
                assert(t@ == SqlTypeView::Array(Some(Box::new((**inner)@))));
                match translate_data_type(&**inner) {
                    Ok(t) => Ok(DataType::Array(Box::new(t))),
                    Err(e) => Err(e),
                }
            },
            None => {
                let element = DataType::String;
                assert(element@ == DataTypeView::String);
                Ok(DataType::Array(Box::new(element)))
            },
        },
        SqlType::Other(text) => Err(fail2("Unsupported data type: ", text.as_str())),
    }
}

/// What is said of a text that is not an integer in range.
pub open spec fn integer_error(e: IntegerError) -> Seq<char> {
    match e {
        IntegerError::Empty => "cannot parse integer from empty string"@,
        IntegerError::InvalidDigit => "invalid digit found in string"@,
        IntegerError::TooLarge => "number too large to fit in target type"@,
        IntegerError::TooSmall => "number too small to fit in target type"@,
    }
}

/// The value of a literal: a number with a point in it is a double, any other an
/// integer.
pub open spec fn translated_value(v: SqlValueView) -> Result<ExprView, Seq<char>> {
    match v {
        SqlValueView::Number(n) => if n.contains('.') {
            match read_double(n) {
                Some(d) => Ok(ExprView::Literal(ValueView::Double(d))),
                None => Err("invalid float literal"@),
            }
        } else {
            match read_integer(n) {
                Ok(i) => Ok(ExprView::Literal(ValueView::Integer(i))),
                Err(e) => Err(integer_error(e)),
            }
        },
        SqlValueView::SingleQuotedString(s) => Ok(ExprView::Literal(ValueView::String(s))),
        SqlValueView::DoubleQuotedString(s) => Ok(ExprView::Literal(ValueView::String(s))),
        SqlValueView::Boolean(b) => Ok(ExprView::Literal(ValueView::Boolean(b))),
        SqlValueView::Null => Ok(ExprView::Literal(ValueView::Null)),
        SqlValueView::Other(text) => Err("Unsupported value: "@ + text),
    }
}

fn has_point(s: &str) -> (r: bool)
    ensures
        r == s@.contains('.'),
{
    let chars = chars_of(s);
    let mut i: usize = 0;
    while i < chars.len()
        invariant
            i <= chars.len(),
            chars@ == s@,
            forall|j: int| 0 <= j < i ==> s@[j] != '.',
        decreases chars.len() - i,
    {
        if chars[i] == '.' {
            return true;
        }
        i = i + 1;
    }
    false
}

/// Translates a literal.
pub fn translate_value(v: &SqlValue) -> (r: Result<Expr, Error>)
    ensures
        outcome(r) == translated_value(v@),
{
    match v {
        SqlValue::Number(n) => {
            if has_point(n.as_str()) {
                match text_to_double(n.as_str()) {
                    Some(d) => Ok(Expr::Literal(Value::Double(d))),
                    None => Err(Error::new("invalid float literal")),
                }
            } else {
                match text_to_integer(n.as_str()) {
                    Ok(i) => Ok(Expr::Literal(Value::Integer(i))),
                    Err(IntegerError::Empty) => Err(
                        Error::new("cannot parse integer from empty string"),
                    ),
                    Err(IntegerError::InvalidDigit) => Err(
                        Error::new("invalid digit found in string"),
                    ),
                    Err(IntegerError::TooLarge) => Err(
                        Error::new("number too large to fit in target type"),
                    ),
                    Err(IntegerError::TooSmall) => Err(
                        Error::new("number too small to fit in target type"),
                    ),
                }
            }
        },
        SqlValue::SingleQuotedString(s) => Ok(Expr::Literal(Value::String(s.clone()))),
        SqlValue::DoubleQuotedString(s) => Ok(Expr::Literal(Value::String(s.clone()))),
        SqlValue::Boolean(b) => Ok(Expr::Literal(Value::Boolean(*b))),
        SqlValue::Null => Ok(Expr::Literal(Value::Null)),
        SqlValue::Other(text) => Err(fail2("Unsupported value: ", text.as_str())),
    }
}

/// The operator that the text of a binary operator stands for.
pub open spec fn translated_binary_op(op: Seq<char>) -> Result<BinaryOp, Seq<char>> {
    if op == "Eq"@ {
        Ok(BinaryOp::Eq)
    } else if op == "NotEq"@ {
        Ok(BinaryOp::NotEq)
    } else if op == "Lt"@ {
        Ok(BinaryOp::Lt)
    } else if op == "LtEq"@ {
        Ok(BinaryOp::LtEq)
    } else if op == "Gt"@ {
        Ok(BinaryOp::Gt)
    } else if op == "GtEq"@ {
        Ok(BinaryOp::GtEq)
    } else if op == "And"@ {
        Ok(BinaryOp::And)
    } else if op == "Or"@ {
        Ok(BinaryOp::Or)
    } else if op == "Plus"@ {
        Ok(BinaryOp::Add)
    } else if op == "Minus"@ {
        Ok(BinaryOp::Sub)
    } else if op == "Multiply"@ {
        Ok(BinaryOp::Mul)
    } else if op == "Divide"@ {
        Ok(BinaryOp::Div)
    } else if op == "Modulo"@ {
        Ok(BinaryOp::Mod)
    } else {
        Err("Unsupported binary operator: "@ + op)
    }
}

/// Translates a binary operator.
pub fn translate_binary_op(op: &str) -> (r: Result<BinaryOp, Error>)
    ensures
        match r {
            Ok(b) => translated_binary_op(op@) == Ok::<BinaryOp, Seq<char>>(b),
            Err(e) => translated_binary_op(op@) == Err::<BinaryOp, Seq<char>>(e@),
        },
{
    if same_text(op, "Eq") {
        Ok(BinaryOp::Eq)
    } else if same_text(op, "NotEq") {
        Ok(BinaryOp::NotEq)
    } else if same_text(op, "Lt") {
        Ok(BinaryOp::Lt)
    } else if same_text(op, "LtEq") {
        Ok(BinaryOp::LtEq)
    } else if same_text(op, "Gt") {
        Ok(BinaryOp::Gt)
    } else if same_text(op, "GtEq") {
        Ok(BinaryOp::GtEq)
    } else if same_text(op, "And") {
        Ok(BinaryOp::And)
    } else if same_text(op, "Or") {
        Ok(BinaryOp::Or)
    } else if same_text(op, "Plus") {
        Ok(BinaryOp::Add)
    } else if same_text(op, "Minus") {
        Ok(BinaryOp::Sub)
    } else if same_text(op, "Multiply") {
        Ok(BinaryOp::Mul)
    } else if same_text(op, "Divide") {
        Ok(BinaryOp::Div)
    } else if same_text(op, "Modulo") {
        Ok(BinaryOp::Mod)
    } else {
        Err(fail2("Unsupported binary operator: ", op))
    }
}

/// The operator that the text of a unary operator stands for.
pub open spec fn translated_unary_op(op: Seq<char>) -> Result<UnaryOp, Seq<char>> {
    if op == "Not"@ {
        Ok(UnaryOp::Not)
    } else if op == "Minus"@ {
        Ok(UnaryOp::Negate)
    } else {
        Err("Unsupported unary operator: "@ + op)
    }
}

/// Translates a unary operator.
pub fn translate_unary_op(op: &str) -> (r: Result<UnaryOp, Error>)
    ensures
        match r {
            Ok(u) => translated_unary_op(op@) == Ok::<UnaryOp, Seq<char>>(u),
            Err(e) => translated_unary_op(op@) == Err::<UnaryOp, Seq<char>>(e@),
        },
{
    if same_text(op, "Not") {
        Ok(UnaryOp::Not)
    } else if same_text(op, "Minus") {
        Ok(UnaryOp::Negate)
    } else {
        Err(fail2("Unsupported unary operator: ", op))
    }
}

/// The pattern of a LIKE, which must be a text.
pub open spec fn translated_pattern(e: SqlExprView) -> Result<Seq<char>, Seq<char>> {
    match e {
        SqlExprView::Value(SqlValueView::SingleQuotedString(s)) => Ok(s),
        SqlExprView::Value(SqlValueView::DoubleQuotedString(s)) => Ok(s),
        SqlExprView::Value(_) => Err("LIKE pattern must be a string"@),
        _ => Err("LIKE pattern must be a string literal"@),
    }
}

/// Translates the pattern of a LIKE.
pub fn translate_pattern(e: &SqlExpr) -> (r: Result<String, Error>)
    ensures
        outcome(r) == translated_pattern(e@),
{
    match e {
        SqlExpr::Value(v) => match v {
            SqlValue::SingleQuotedString(s) => Ok(s.clone()),
            SqlValue::DoubleQuotedString(s) => Ok(s.clone()),
            _ => Err(Error::new("LIKE pattern must be a string")),
        },
        _ => Err(Error::new("LIKE pattern must be a string literal")),
    }
}

/// What an expression stands for. Where more than one part cannot be translated, the
/// first of them is told.
pub open spec fn translated(e: SqlExprView) -> Result<ExprView, Seq<char>>
    decreases e, 0int,
{
    match e {
        SqlExprView::Identifier(name) => Ok(ExprView::Column(name)),
        SqlExprView::CompoundIdentifier(parts) => Ok(ExprView::Column(dotted(parts))),
        SqlExprView::Value(v) => translated_value(v),
        SqlExprView::BinaryOp { left, op, right } => match translated(*left) {
            Ok(left) => match translated(*right) {
                Ok(right) => match translated_binary_op(op) {
                    Ok(op) => Ok(
                        ExprView::BinaryOp { left: Box::new(left), op, right: Box::new(right) },
                    ),
                    Err(e) => Err(e),
                },
                Err(e) => Err(e),
            },
            Err(e) => Err(e),
        },
        SqlExprView::UnaryOp { op, expr } => match translated(*expr) {
            Ok(expr) => match translated_unary_op(op) {
                Ok(op) => Ok(ExprView::UnaryOp { op, expr: Box::new(expr) }),
                Err(e) => Err(e),
            },
            Err(e) => Err(e),
        },
        SqlExprView::Function { name, args } => match args {
            SqlArgumentsView::Absent => Ok(
                ExprView::Function { name: name_text(name), args: Seq::empty() },
            ),
            SqlArgumentsView::List { args, .. } => match translated_arguments(args, 0) {
                Ok(args) => Ok(ExprView::Function { name: name_text(name), args }),
                Err(e) => Err(e),
            },
            SqlArgumentsView::Other => Err("Unsupported function arguments"@),
        },
        SqlExprView::IsNull(expr) => match translated(*expr) {
            Ok(expr) => Ok(ExprView::IsNull { expr: Box::new(expr), negated: false }),
            Err(e) => Err(e),
        },
        SqlExprView::IsNotNull(expr) => match translated(*expr) {
            Ok(expr) => Ok(ExprView::IsNull { expr: Box::new(expr), negated: true }),
            Err(e) => Err(e),
        },
        SqlExprView::Like { negated, expr, pattern } => match translated(*expr) {
            Ok(expr) => match translated_pattern(*pattern) {
                Ok(pattern) => Ok(ExprView::Like { expr: Box::new(expr), pattern, negated }),
                Err(e) => Err(e),
            },
            Err(e) => Err(e),
        },
        SqlExprView::Between { expr, negated, low, high } => match translated(*expr) {
            Ok(expr) => match translated(*low) {
                Ok(low) => match translated(*high) {
                    Ok(high) => Ok(
                        ExprView::Between {
                            expr: Box::new(expr),
                            low: Box::new(low),
                            high: Box::new(high),
                            negated,
                        },
                    ),
                    Err(e) => Err(e),
                },
                Err(e) => Err(e),
            },
            Err(e) => Err(e),
        },
        SqlExprView::Case { operand, conditions, else_result } => {
            let operand = match operand {
                Some(e) => match translated(*e) {
                    Ok(e) => Ok(Some(Box::new(e))),
                    Err(e) => Err(e),
                },
                None => Ok(None),
            };
            let otherwise = match else_result {
                Some(e) => match translated(*e) {
                    Ok(e) => Ok(Some(Box::new(e))),
                    Err(e) => Err(e),
                },
                None => Ok(None),
            };
            match operand {
                Ok(operand) => match translated_branches(conditions, 0) {
                    Ok(conditions) => match otherwise {
                        Ok(else_result) => Ok(
                            ExprView::Case { operand, conditions, else_result },
                        ),
                        Err(e) => Err(e),
                    },
                    Err(e) => Err(e),
                },
                Err(e) => Err(e),
            }
        },
        SqlExprView::Cast { expr, data_type } => match translated(*expr) {
            Ok(expr) => match translated_type(data_type) {
                Ok(data_type) => Ok(ExprView::Cast { expr: Box::new(expr), data_type }),
                Err(e) => Err(e),
            },
            Err(e) => Err(e),
        },
        SqlExprView::Nested(expr) => translated(*expr),
        SqlExprView::Other(text) => Err("Unsupported expression: "@ + text),
    }
}

/// What the arguments from `i` on stand for. One that is not an expression is left
/// out.
pub open spec fn translated_arguments(args: Seq<SqlArgumentView>, i: nat) -> Result<
    Seq<ExprView>,
    Seq<char>,
>
    decreases args, args.len() - i,
{
    if i >= args.len() {
        Ok(Seq::empty())
    } else {
        match args[i as int] {
            SqlArgumentView::Expr(e) => match translated(e) {
                Ok(x) => before_all(seq![x], translated_arguments(args, i + 1)),
                Err(e) => Err(e),
            },
            _ => translated_arguments(args, i + 1),
        }
    }
}

/// What the branches of a CASE from `i` on stand for.
pub open spec fn translated_branches(branches: Seq<(SqlExprView, SqlExprView)>, i: nat) -> Result<
    Seq<(ExprView, ExprView)>,
    Seq<char>,
>
    decreases branches, branches.len() - i,
{
    if i >= branches.len() {
        Ok(Seq::empty())
    } else {
        match translated(branches[i as int].0) {
            Ok(condition) => match translated(branches[i as int].1) {
                Ok(result) => before_all(
                    seq![(condition, result)],
                    translated_branches(branches, i + 1),
                ),
                Err(e) => Err(e),
            },
            Err(e) => Err(e),
        }
    }
}

/// What an optional expression stands for.
pub open spec fn translated_option(e: Option<Box<SqlExprView>>) -> Result<
    Option<Box<ExprView>>,
    Seq<char>,
> {
    match e {
        Some(e) => match translated(*e) {
            Ok(e) => Ok(Some(Box::new(e))),
            Err(e) => Err(e),
        },
        None => Ok(None),
    }
}

/// What translated expressions hold.
pub open spec fn exprs_outcome(r: Result<Vec<Expr>, Error>) -> Result<Seq<ExprView>, Seq<char>> {
    match r {
        Ok(x) => Ok(views(x@)),
        Err(e) => Err(e@),
    }
}

fn translate_arguments(args: &Vec<SqlArgument>) -> (r: Result<Vec<Expr>, Error>)
    ensures
        exprs_outcome(r) == translated_arguments(views(args@), 0),
    decreases args,
{
    let ghost a = views(args@);
    let mut exprs: Vec<Expr> = Vec::new();
    let mut i: usize = 0;
    proof {
        assert(views(exprs@) =~= Seq::<ExprView>::empty());
        lemma_before_nothing(views(exprs@), translated_arguments(a, 0));
    }
    while i < args.len()
        invariant
            i <= args.len(),
            a == views(args@),
            translated_arguments(a, 0) == before_all(
                views(exprs@),
                translated_arguments(a, i as nat),
            ),
        decreases args.len() - i,
    {
        let ghost before = views(exprs@);
        assert(a[i as int] == args@[i as int]@);
        if let SqlArgument::Expr(e) = &args[i] {
            match translate_expr(e) {
                Ok(x) => {
                    let ghost held = x@;
                    exprs.push(x);
                    proof {
                        assert(views(exprs@) =~= before.push(held));
                        lemma_before_all(before, held, translated_arguments(a, (i + 1) as nat));
                    }
                },
                Err(e) => {
                    return Err(e);
                },
            }
        }
        i = i + 1;
    }
    proof {
        lemma_before_nothing(views(exprs@), translated_arguments(a, 0));
    }
    Ok(exprs)
}

fn translate_option(e: &Option<Box<SqlExpr>>) -> (r: Result<Option<Box<Expr>>, Error>)
    ensures
        match r {
            Ok(x) => translated_option(option_sql(*e)) == Ok::<
                Option<Box<ExprView>>,
                Seq<char>,
            >(option_view(x)),
            Err(x) => translated_option(option_sql(*e)) == Err::<
                Option<Box<ExprView>>,
                Seq<char>,
            >(x@),
        },
    decreases e,
{
    match e {
        Some(e) => match translate_expr(&**e) {
            Ok(e) => Ok(Some(Box::new(e))),
            Err(e) => Err(e),
        },
        None => Ok(None),
    }
}

fn translate_branches(branches: &Vec<(SqlExpr, SqlExpr)>) -> (r: Result<Vec<(Expr, Expr)>, Error>)
    ensures
        match r {
            Ok(x) => translated_branches(branch_pairs(branches@), 0) == Ok::<
                Seq<(ExprView, ExprView)>,
                Seq<char>,
            >(branch_views(x@)),
            Err(e) => translated_branches(branch_pairs(branches@), 0) == Err::<
                Seq<(ExprView, ExprView)>,
                Seq<char>,
            >(e@),
        },
    decreases branches,
{
    let ghost b = branch_pairs(branches@);
    let mut out: Vec<(Expr, Expr)> = Vec::new();
    let mut i: usize = 0;
    proof {
        assert(branch_views(out@) =~= Seq::<(ExprView, ExprView)>::empty());
        lemma_before_nothing(branch_views(out@), translated_branches(b, 0));
    }
    while i < branches.len()
        invariant
            i <= branches.len(),
            b == branch_pairs(branches@),
            translated_branches(b, 0) == before_all(
                branch_views(out@),
                translated_branches(b, i as nat),
            ),
        decreases branches.len() - i,
    {
        let ghost before = branch_views(out@);
        assert(b[i as int] == (branches@[i as int].0@, branches@[i as int].1@));
        let condition = match translate_expr(&branches[i].0) {
            Ok(x) => x,
            Err(e) => {
                return Err(e);
            },
        };
        let result = match translate_expr(&branches[i].1) {
            Ok(x) => x,
            Err(e) => {
                return Err(e);
            },
        };
        let ghost held = (condition@, result@);
        out.push((condition, result));
        proof {
            assert(branch_views(out@) =~= before.push(held));
            lemma_before_all(before, held, translated_branches(b, (i + 1) as nat));
        }
        i = i + 1;
    }
    proof {
        lemma_before_nothing(branch_views(out@), translated_branches(b, 0));
    }
    Ok(out)
}

/// Translates an expression.
pub fn translate_expr(e: &SqlExpr) -> (r: Result<Expr, Error>)
    ensures
        outcome(r) == translated(e@),
    decreases e,
{
    broadcast use lemma_sql_expr_view;
    broadcast use lemma_sql_arguments_view;
    broadcast use lemma_expr_view;

    match e {
        SqlExpr::Identifier(name) => Ok(Expr::Column(name.clone())),
        SqlExpr::CompoundIdentifier(parts) => Ok(Expr::Column(join_dots(parts))),
        SqlExpr::Value(v) => translate_value(v),
        SqlExpr::BinaryOp { left, op, right } => {
            let ghost views = ((**left)@, (**right)@);
            let left = match translate_expr(&**left) {
                Ok(x) => x,
                Err(e) => {
                    return Err(e);
                },
            };
            let right = match translate_expr(&**right) {
                Ok(x) => x,
                Err(e) => {
                    return Err(e);
                },
            };
            match translate_binary_op(op.as_str()) {
                Ok(op) => Ok(Expr::BinaryOp { left: Box::new(left), op, right: Box::new(right) }),
                Err(e) => Err(e),
            }
        },
        SqlExpr::UnaryOp { op, expr } => {
            let ghost inner = (**expr)@;
            match translate_expr(&**expr) {
                Ok(x) => match translate_unary_op(op.as_str()) {
                    Ok(op) => Ok(Expr::UnaryOp { op, expr: Box::new(x) }),
                    Err(e) => Err(e),
                },
                Err(e) => Err(e),
            }
        },
        SqlExpr::Function { name, args } => {
            let name = object_name_to_string(name);
            match args {
                SqlArguments::Absent => {
                    let args: Vec<Expr> = Vec::new();
                    assert(views(args@) =~= Seq::<ExprView>::empty());
                    Ok(Expr::Function { name, args })
                },
                SqlArguments::List { args, .. } => match translate_arguments(args) {
                    Ok(args) => Ok(Expr::Function { name, args }),
                    Err(e) => Err(e),
                },
                SqlArguments::Other => Err(Error::new("Unsupported function arguments")),
            }
        },
        SqlExpr::IsNull(expr) => {
            let ghost inner = (**expr)@;
            match translate_expr(&**expr) {
                Ok(x) => Ok(Expr::IsNull { expr: Box::new(x), negated: false }),
                Err(e) => Err(e),
            }
        },
        SqlExpr::IsNotNull(expr) => {
            let ghost inner = (**expr)@;
            match translate_expr(&**expr) {
                Ok(x) => Ok(Expr::IsNull { expr: Box::new(x), negated: true }),
                Err(e) => Err(e),
            }
        },
        SqlExpr::Like { negated, expr, pattern } => {
            let ghost views = ((**expr)@, (**pattern)@);
            match translate_expr(&**expr) {
                Ok(x) => match translate_pattern(&**pattern) {
                    Ok(pattern) => Ok(
                        Expr::Like { expr: Box::new(x), pattern, negated: *negated },
                    ),
                    Err(e) => Err(e),
                },
                Err(e) => Err(e),
            }
        },
        SqlExpr::Between { expr, negated, low, high } => {
            let ghost views = ((**expr)@, (**low)@, (**high)@);
            let x = match translate_expr(&**expr) {
                Ok(x) => x,
                Err(e) => {
                    return Err(e);
                },
            };
            let low = match translate_expr(&**low) {
                Ok(x) => x,
                Err(e) => {
                    return Err(e);
                },
            };
            match translate_expr(&**high) {
                Ok(high) => Ok(
                    Expr::Between {
                        expr: Box::new(x),
                        low: Box::new(low),
                        high: Box::new(high),
                        negated: *negated,
                    },
                ),
                Err(e) => Err(e),
            }
        },
        SqlExpr::Case { operand, conditions, else_result } => {
            let operand = match translate_option(operand) {
                Ok(x) => x,
                Err(e) => {
                    return Err(e);
                },
            };
            let conditions = match translate_branches(conditions) {
                Ok(x) => x,
                Err(e) => {
                    return Err(e);
                },
            };
            match translate_option(else_result) {
                Ok(else_result) => Ok(Expr::Case { operand, conditions, else_result }),
                Err(e) => Err(e),
            }
        },
        SqlExpr::Cast { expr, data_type } => {
            let ghost inner = (**expr)@;
            match translate_expr(&**expr) {
                Ok(x) => match translate_data_type(data_type) {
                    Ok(data_type) => Ok(Expr::Cast { expr: Box::new(x), data_type }),
                    Err(e) => Err(e),
                },
                Err(e) => Err(e),
            }
        },
        SqlExpr::Nested(expr) => {
            let ghost inner = (**expr)@;
            translate_expr(&**expr)
        },
        SqlExpr::Other(text) => Err(fail2("Unsupported expression: ", text.as_str())),
    }
}

} // verus!

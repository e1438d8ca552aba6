//! Laws of what expressions, types and literals of SQL are translated to.
use crate::decimal::read_double;
use crate::expr::{BinaryOp, ExprView, UnaryOp};
use crate::sql::ast::{
    SqlArgumentView, SqlArgumentsView, SqlExprView, SqlTypeView, SqlValueView,
};
use crate::sql::translate::{
    dotted, name_text, translated, translated_arguments, translated_binary_op,
    translated_branches, translated_type,
};
use crate::text::laws::lemma_written;
use crate::text::{decimal, integer_text, lemma_integer_round_trip};
use crate::types::DataTypeView;
use crate::value::ValueView;
use vstd::prelude::*;

verus! {

/// An identifier is the column of that name, one with a qualifier the column of both with
/// a dot between them, and brackets change nothing.
pub proof fn lemma_columns(name: Seq<char>, qualifier: Seq<char>, e: SqlExprView)
    ensures
        translated(SqlExprView::Identifier(name)) == Ok::<ExprView, Seq<char>>(
            ExprView::Column(name),
        ),
        translated(SqlExprView::CompoundIdentifier(seq![qualifier, name])) == Ok::<
            ExprView,
            Seq<char>,
        >(ExprView::Column(qualifier + seq!['.'] + name)),
        translated(SqlExprView::Nested(Box::new(e))) == translated(e),
{
    reveal_with_fuel(dotted, 3);
    reveal_strlit(".");
    assert("."@ =~= seq!['.']);
    let parts = seq![qualifier, name];
    assert(parts.drop_last() =~= seq![qualifier]);
}

/// Literals stand for what they say: texts in either kind of quotes, truth values, null,
/// integers, and doubles where there is a point in the number.
pub proof fn lemma_literals(s: Seq<char>, b: bool, i: i64, n: Seq<char>)
    ensures
        translated(SqlExprView::Value(SqlValueView::SingleQuotedString(s))) == Ok::<
            ExprView,
            Seq<char>,
        >(ExprView::Literal(ValueView::String(s))),
        translated(SqlExprView::Value(SqlValueView::DoubleQuotedString(s))) == Ok::<
            ExprView,
            Seq<char>,
        >(ExprView::Literal(ValueView::String(s))),
        translated(SqlExprView::Value(SqlValueView::Boolean(b))) == Ok::<ExprView, Seq<char>>(
            ExprView::Literal(ValueView::Boolean(b)),
        ),
        translated(SqlExprView::Value(SqlValueView::Null)) == Ok::<ExprView, Seq<char>>(
            ExprView::Literal(ValueView::Null),
        ),
        translated(SqlExprView::Value(SqlValueView::Number(integer_text(i as int)))) == Ok::<
            ExprView,
            Seq<char>,
        >(ExprView::Literal(ValueView::Integer(i))),
        n.contains('.') ==> match read_double(n) {
            Some(d) => translated(SqlExprView::Value(SqlValueView::Number(n))) == Ok::<
                ExprView,
                Seq<char>,
            >(ExprView::Literal(ValueView::Double(d))),
            None => translated(SqlExprView::Value(SqlValueView::Number(n))) is Err,
        },
{
    lemma_integer_round_trip(i);
    let t = integer_text(i as int);
    if i < 0 {
        lemma_written((-i) as nat);
    } else {
        lemma_written(i as nat);
    }
    assert(!t.contains('.')) by {
        if t.contains('.') {
            let k = choose|k: int| 0 <= k < t.len() && t[k] == '.';
            if i < 0 {
                let d = decimal((-i) as nat);
                assert(t == seq!['-'] + d);
                if k > 0 {
                    assert(t[k] == d[k - 1]);
                }
            }
        }
    }
}

/// Whether the name that the parser has for an operator is that of an operator here.
pub open spec fn is_operator(op: BinaryOp, name: Seq<char>) -> bool {
    match op {
        BinaryOp::Eq => name == "Eq"@,
        BinaryOp::NotEq => name == "NotEq"@,
        BinaryOp::Lt => name == "Lt"@,
        BinaryOp::LtEq => name == "LtEq"@,
        BinaryOp::Gt => name == "Gt"@,
        BinaryOp::GtEq => name == "GtEq"@,
        BinaryOp::And => name == "And"@,
        BinaryOp::Or => name == "Or"@,
        BinaryOp::Add => name == "Plus"@,
        BinaryOp::Sub => name == "Minus"@,
        BinaryOp::Mul => name == "Multiply"@,
        BinaryOp::Div => name == "Divide"@,
        BinaryOp::Mod => name == "Modulo"@,
    }
}

proof fn lemma_operator(op: BinaryOp, name: Seq<char>)
    requires
        is_operator(op, name),
    ensures
        translated_binary_op(name) == Ok::<BinaryOp, Seq<char>>(op),
{
    reveal_strlit("Eq");
    reveal_strlit("NotEq");
    reveal_strlit("Lt");
    reveal_strlit("LtEq");
    reveal_strlit("Gt");
    reveal_strlit("GtEq");
    reveal_strlit("And");
    reveal_strlit("Or");
    reveal_strlit("Plus");
    reveal_strlit("Minus");
    reveal_strlit("Multiply");
    reveal_strlit("Divide");
    reveal_strlit("Modulo");
    assert("Eq"@.len() == 2 && "Eq"@[0] == 'E');
    assert("NotEq"@.len() == 5 && "NotEq"@[0] == 'N');
    assert("Lt"@.len() == 2 && "Lt"@[0] == 'L');
    assert("LtEq"@.len() == 4 && "LtEq"@[0] == 'L');
    assert("Gt"@.len() == 2 && "Gt"@[0] == 'G');
    assert("GtEq"@.len() == 4 && "GtEq"@[0] == 'G');
    assert("And"@.len() == 3);
    assert("Or"@.len() == 2 && "Or"@[0] == 'O');
    assert("Plus"@.len() == 4 && "Plus"@[0] == 'P');
    assert("Minus"@.len() == 5 && "Minus"@[0] == 'M');
    assert("Multiply"@.len() == 8);
    assert("Divide"@.len() == 6 && "Divide"@[0] == 'D');
    assert("Modulo"@.len() == 6 && "Modulo"@[0] == 'M');
}

/// An operator between two expressions is that operator between what they stand for, in
/// the same order. It cannot be translated exactly where a side, or the operator, cannot.
pub proof fn lemma_operators(
    left: SqlExprView,
    name: Seq<char>,
    right: SqlExprView,
    op: BinaryOp,
)
    ensures
        ({
            let r = translated(
                SqlExprView::BinaryOp { left: Box::new(left), op: name, right: Box::new(right) },
            );
            &&& is_operator(op, name) ==> match (translated(left), translated(right)) {
                (Ok(a), Ok(b)) => r == Ok::<ExprView, Seq<char>>(
                    ExprView::BinaryOp { left: Box::new(a), op, right: Box::new(b) },
                ),
                _ => r is Err,
            }
            &&& r matches Ok(x) ==> x is BinaryOp && is_operator(x->BinaryOp_op, name)
        }),
{
    if is_operator(op, name) {
        lemma_operator(op, name);
    }
}

/// NOT and a minus before an expression stand for themselves before what it stands for.
pub proof fn lemma_unary(e: SqlExprView, x: ExprView)
    requires
        translated(e) == Ok::<ExprView, Seq<char>>(x),
    ensures
        translated(SqlExprView::UnaryOp { op: "Not"@, expr: Box::new(e) }) == Ok::<
            ExprView,
            Seq<char>,
        >(ExprView::UnaryOp { op: UnaryOp::Not, expr: Box::new(x) }),
        translated(SqlExprView::UnaryOp { op: "Minus"@, expr: Box::new(e) }) == Ok::<
            ExprView,
            Seq<char>,
        >(ExprView::UnaryOp { op: UnaryOp::Negate, expr: Box::new(x) }),
{
    reveal_strlit("Not");
    reveal_strlit("Minus");
    assert("Not"@.len() == 3);
    assert("Minus"@.len() == 5);
}

/// The tests of an expression: for null, against a pattern, and between two bounds, each
/// with its opposite.
pub proof fn lemma_tests(
    e: SqlExprView,
    low: SqlExprView,
    high: SqlExprView,
    pattern: Seq<char>,
    negated: bool,
    x: ExprView,
    l: ExprView,
    h: ExprView,
)
    requires
        translated(e) == Ok::<ExprView, Seq<char>>(x),
        translated(low) == Ok::<ExprView, Seq<char>>(l),
        translated(high) == Ok::<ExprView, Seq<char>>(h),
    ensures
        translated(SqlExprView::IsNull(Box::new(e))) == Ok::<ExprView, Seq<char>>(
            ExprView::IsNull { expr: Box::new(x), negated: false },
        ),
        translated(SqlExprView::IsNotNull(Box::new(e))) == Ok::<ExprView, Seq<char>>(
            ExprView::IsNull { expr: Box::new(x), negated: true },
        ),
        translated(
            SqlExprView::Like {
                negated,
                expr: Box::new(e),
                pattern: Box::new(
                    SqlExprView::Value(SqlValueView::SingleQuotedString(pattern)),
                ),
            },
        ) == Ok::<ExprView, Seq<char>>(ExprView::Like { expr: Box::new(x), pattern, negated }),
        translated(
            SqlExprView::Between {
                expr: Box::new(e),
                negated,
                low: Box::new(low),
                high: Box::new(high),
            },
        ) == Ok::<ExprView, Seq<char>>(
            ExprView::Between {
                expr: Box::new(x),
                low: Box::new(l),
                high: Box::new(h),
                negated,
            },
        ),
{
}

/// A cast is to the type that the type of SQL stands for.
pub proof fn lemma_casts(e: SqlExprView, t: SqlTypeView)
    ensures
        translated(SqlExprView::Cast { expr: Box::new(e), data_type: t }) == (match (
            translated(e),
            translated_type(t),
        ) {
            (Err(error), _) => Err(error),
            (Ok(_), Err(error)) => Err(error),
            (Ok(x), Ok(data_type)) => Ok(ExprView::Cast { expr: Box::new(x), data_type }),
        }),
        translated_type(SqlTypeView::Boolean) == Ok::<DataTypeView, Seq<char>>(
            DataTypeView::Boolean,
        ),
        t is Int || t is Integer <==> translated_type(t) == Ok::<DataTypeView, Seq<char>>(
            DataTypeView::Integer,
        ),
        t is BigInt <==> translated_type(t) == Ok::<DataTypeView, Seq<char>>(DataTypeView::BigInt),
        t is Float || t is Double || t is DoublePrecision <==> translated_type(t) == Ok::<
            DataTypeView,
            Seq<char>,
        >(DataTypeView::Double),
        t is Varchar || t is Text || t is String <==> translated_type(t) == Ok::<
            DataTypeView,
            Seq<char>,
        >(DataTypeView::String),
        t is Timestamp <==> translated_type(t) == Ok::<DataTypeView, Seq<char>>(
            DataTypeView::Timestamp,
        ),
        translated_type(SqlTypeView::Array(Some(Box::new(t)))) == (match translated_type(t) {
            Ok(inner) => Ok(DataTypeView::Array(Box::new(inner))),
            Err(error) => Err(error),
        }),
        t is Other ==> translated_type(t) is Err,
{
}

/// A call of a function is the function of that name on what its arguments stand for, in
/// their order.
pub proof fn lemma_calls(name: Seq<Option<Seq<char>>>, args: Seq<SqlArgumentView>, distinct: bool)
    requires
        forall|i: int| 0 <= i < args.len() ==> (#[trigger] args[i]) is Expr,
    ensures
        translated(
            SqlExprView::Function { name, args: SqlArgumentsView::List { args, distinct } },
        ) matches Ok(x) ==> x is Function && x->Function_name == name_text(name)
            && x->Function_args.len() == args.len() && forall|i: int|
            0 <= i < args.len() ==> translated((#[trigger] args[i])->Expr_0) == Ok::<
                ExprView,
                Seq<char>,
            >(x->Function_args[i]),
{
    lemma_arguments(args, 0);
    let e = SqlExprView::Function { name, args: SqlArgumentsView::List { args, distinct } };
    if let Ok(x) = translated(e) {
        let list = translated_arguments(args, 0)->Ok_0;
        assert forall|i: int| 0 <= i < args.len() implies translated((#[trigger] args[i])->Expr_0)
            == Ok::<ExprView, Seq<char>>(x->Function_args[i]) by {
            assert(args[0 + i] == args[i]);
            assert(list[i] == x->Function_args[i]);
        }
    }
}

proof fn lemma_arguments(args: Seq<SqlArgumentView>, i: nat)
    requires
        i <= args.len(),
        forall|k: int| 0 <= k < args.len() ==> (#[trigger] args[k]) is Expr,
    ensures
        translated_arguments(args, i) matches Ok(list) ==> list.len() == args.len() - i && forall|
            k: int,
        |
            0 <= k < list.len() ==> translated(args[i + k]->Expr_0) == Ok::<ExprView, Seq<char>>(
                #[trigger] list[k],
            ),
    decreases args.len() - i,
{
    if i < args.len() {
        lemma_arguments(args, i + 1);
        assert(args[i as int] is Expr);
        if let Ok(list) = translated_arguments(args, i) {
            let rest = translated_arguments(args, i + 1)->Ok_0;
            assert(list =~= seq![list[0]] + rest);
            assert forall|k: int| 0 <= k < list.len() implies translated(args[i + k]->Expr_0)
                == Ok::<ExprView, Seq<char>>(#[trigger] list[k]) by {
                if k > 0 {
                    assert(list[k] == rest[k - 1]);
                    assert(args[(i + 1) + (k - 1)] == args[i + k]);
                }
            }
        }
    }
}

/// A CASE has the same branches, in their order, and the same operand and ELSE where it
/// has them, as what these stand for.
pub proof fn lemma_cases(
    operand: Option<Box<SqlExprView>>,
    conditions: Seq<(SqlExprView, SqlExprView)>,
    otherwise: Option<Box<SqlExprView>>,
)
    ensures
        translated(
            SqlExprView::Case { operand, conditions, else_result: otherwise },
        ) matches Ok(x) ==> {
            &&& x is Case
            &&& match operand {
                Some(o) => x->operand matches Some(y) && translated(*o) == Ok::<
                    ExprView,
                    Seq<char>,
                >(*y),
                None => x->operand is None,
            }
            &&& match otherwise {
                Some(o) => x->else_result matches Some(y) && translated(*o) == Ok::<
                    ExprView,
                    Seq<char>,
                >(*y),
                None => x->else_result is None,
            }
            &&& x->conditions.len() == conditions.len()
            &&& forall|i: int|
                0 <= i < conditions.len() ==> translated((#[trigger] conditions[i]).0) == Ok::<
                    ExprView,
                    Seq<char>,
                >(x->conditions[i].0) && translated(conditions[i].1) == Ok::<ExprView, Seq<char>>(
                    x->conditions[i].1,
                )
        },
{
    lemma_branches(conditions, 0);
    let e = SqlExprView::Case { operand, conditions, else_result: otherwise };
    if let Ok(x) = translated(e) {
        let list = translated_branches(conditions, 0)->Ok_0;
        assert forall|i: int| 0 <= i < conditions.len() implies translated(
            (#[trigger] conditions[i]).0,
        ) == Ok::<ExprView, Seq<char>>(x->conditions[i].0) && translated(conditions[i].1) == Ok::<
            ExprView,
            Seq<char>,
        >(x->conditions[i].1) by {
            assert(conditions[0 + i] == conditions[i]);
            assert(list[i] == x->conditions[i]);
        }
    }
}

proof fn lemma_branches(conditions: Seq<(SqlExprView, SqlExprView)>, i: nat)
    requires
        i <= conditions.len(),
    ensures
        translated_branches(conditions, i) matches Ok(list) ==> list.len() == conditions.len() - i
            && forall|k: int|
            0 <= k < list.len() ==> translated(conditions[i + k].0) == Ok::<ExprView, Seq<char>>(
                (#[trigger] list[k]).0,
            ) && translated(conditions[i + k].1) == Ok::<ExprView, Seq<char>>(list[k].1),
    decreases conditions.len() - i,
{
    if i < conditions.len() {
        lemma_branches(conditions, i + 1);
        if let Ok(list) = translated_branches(conditions, i) {
            let rest = translated_branches(conditions, i + 1)->Ok_0;
            assert(list =~= seq![list[0]] + rest);
            assert forall|k: int| 0 <= k < list.len() implies translated(conditions[i + k].0)
                == Ok::<ExprView, Seq<char>>((#[trigger] list[k]).0) && translated(
                conditions[i + k].1,
            ) == Ok::<ExprView, Seq<char>>(list[k].1) by {
                if k > 0 {
                    assert(list[k] == rest[k - 1]);
                    assert(conditions[(i + 1) + (k - 1)] == conditions[i + k]);
                }
            }
        }
    }
}

} // verus!

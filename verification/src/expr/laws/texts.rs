//! Laws of the texts of values, types and expressions.
use crate::expr::debug::{expr_debug, exprs_debug};
use crate::expr::{BinaryOp, ExprView, UnaryOp};
use crate::text::quoted;
use crate::types::{columns_text, data_type_text, ColumnView, DataTypeView};
use crate::value::{list_debug, value_debug, value_text, ValueView};
use vstd::prelude::*;

verus! {

/// Texts one behind another, with a comma and a space between them.
pub open spec fn listed(texts: Seq<Seq<char>>) -> Seq<char>
    decreases texts.len(),
{
    if texts.len() == 0 {
        Seq::empty()
    } else if texts.len() == 1 {
        texts[0]
    } else {
        listed(texts.drop_last()) + seq![',', ' '] + texts.last()
    }
}

proof fn lemma_listed_first(texts: Seq<Seq<char>>)
    requires
        texts.len() > 1,
    ensures
        listed(texts) == texts[0] + seq![',', ' '] + listed(texts.drop_first()),
    decreases texts.len(),
{
    let rest = texts.drop_first();
    if texts.len() == 2 {
        assert(texts.drop_last() =~= seq![texts[0]]);
        assert(rest =~= seq![texts[1]]);
        reveal_with_fuel(listed, 2);
    } else {
        let most = texts.drop_last();
        lemma_listed_first(most);
        assert(most.drop_first() =~= rest.drop_last());
        assert(rest.last() == texts.last());
        assert(listed(texts) =~= texts[0] + seq![',', ' '] + listed(rest));
    }
}

proof fn lemma_comma()
    ensures
        ", "@ == seq![',', ' '],
{
    reveal_strlit(", ");
    assert(", "@ =~= seq![',', ' ']);
}

proof fn lemma_list_debug(a: Seq<ValueView>, i: nat)
    requires
        i <= a.len(),
    ensures
        list_debug(a, i) == listed(a.skip(i as int).map_values(|v: ValueView| value_debug(v))),
    decreases a.len() - i,
{
    let texts = a.skip(i as int).map_values(|v: ValueView| value_debug(v));
    lemma_comma();
    if i < a.len() {
        assert(texts[0] == value_debug(a[i as int]));
        if i + 1 < a.len() {
            lemma_list_debug(a, i + 1);
            lemma_listed_first(texts);
            assert(texts.drop_first() =~= a.skip((i + 1) as int).map_values(
                |v: ValueView| value_debug(v),
            ));
        }
    }
}

/// The texts of values: null and truth values by their names, texts as they are, and arrays
/// with the debug texts of their values between brackets.
pub proof fn lemma_value_texts(s: Seq<char>, a: Seq<ValueView>)
    ensures
        value_text(ValueView::Null) == "NULL"@,
        value_text(ValueView::Boolean(true)) == "true"@,
        value_text(ValueView::Boolean(false)) == "false"@,
        value_text(ValueView::String(s)) == s,
        value_text(ValueView::Array(a)) == "["@ + listed(
            a.map_values(|v: ValueView| value_debug(v)),
        ) + "]"@,
        value_debug(ValueView::Null) == "Null"@,
        value_debug(ValueView::Boolean(true)) == "Boolean("@ + "true"@ + ")"@,
        value_debug(ValueView::Boolean(false)) == "Boolean("@ + "false"@ + ")"@,
        value_debug(ValueView::String(s)) == "String("@ + quoted(s) + ")"@,
        value_debug(ValueView::Array(a)) == "Array(["@ + listed(
            a.map_values(|v: ValueView| value_debug(v)),
        ) + "])"@,
{
    lemma_list_debug(a, 0);
    assert(a.skip(0) =~= a);
}

proof fn lemma_columns_listed(columns: Seq<ColumnView>, i: nat)
    requires
        i <= columns.len(),
    ensures
        columns_text(columns, i) == listed(
            columns.skip(i as int).map_values(
                |c: ColumnView| c.name + " "@ + data_type_text(c.data_type),
            ),
        ),
    decreases columns.len() - i,
{
    let f = |c: ColumnView| c.name + " "@ + data_type_text(c.data_type);
    let texts = columns.skip(i as int).map_values(f);
    lemma_comma();
    if i < columns.len() {
        assert(texts[0] == f(columns[i as int]));
        if i + 1 < columns.len() {
            lemma_columns_listed(columns, i + 1);
            lemma_listed_first(texts);
            assert(texts.drop_first() =~= columns.skip((i + 1) as int).map_values(f));
        }
    }
}

/// The names of types. One made of others has theirs between pointed brackets.
pub proof fn lemma_type_texts(k: DataTypeView, v: DataTypeView, columns: Seq<ColumnView>)
    ensures
        data_type_text(DataTypeView::Boolean) == "BOOLEAN"@,
        data_type_text(DataTypeView::Integer) == "INTEGER"@,
        data_type_text(DataTypeView::BigInt) == "BIGINT"@,
        data_type_text(DataTypeView::Double) == "DOUBLE"@,
        data_type_text(DataTypeView::String) == "STRING"@,
        data_type_text(DataTypeView::Timestamp) == "TIMESTAMP"@,
        data_type_text(DataTypeView::Array(Box::new(v))) == "ARRAY<"@ + data_type_text(v) + ">"@,
        data_type_text(DataTypeView::Mapping(Box::new(k), Box::new(v))) == "MAP<"@ + (
        data_type_text(k) + ", "@ + data_type_text(v)) + ">"@,
        data_type_text(DataTypeView::Struct(columns)) == "STRUCT<"@ + listed(
            columns.map_values(|c: ColumnView| c.name + " "@ + data_type_text(c.data_type)),
        ) + ">"@,
{
    lemma_columns_listed(columns, 0);
    assert(columns.skip(0) =~= columns);
}

proof fn lemma_exprs_listed(args: Seq<ExprView>, i: nat)
    requires
        i <= args.len(),
    ensures
        exprs_debug(args, i) == listed(
            args.skip(i as int).map_values(|e: ExprView| expr_debug(e)),
        ),
    decreases args.len() - i,
{
    let texts = args.skip(i as int).map_values(|e: ExprView| expr_debug(e));
    lemma_comma();
    if i < args.len() {
        assert(texts[0] == expr_debug(args[i as int]));
        if i + 1 < args.len() {
            lemma_exprs_listed(args, i + 1);
            lemma_listed_first(texts);
            assert(texts.drop_first() =~= args.skip((i + 1) as int).map_values(
                |e: ExprView| expr_debug(e),
            ));
        }
    }
}

/// Whether a text is the name of an operator.
pub open spec fn is_name_of(name: Seq<char>, op: BinaryOp) -> bool {
    &&& op == BinaryOp::Eq ==> name == "Eq"@
    &&& op == BinaryOp::NotEq ==> name == "NotEq"@
    &&& op == BinaryOp::Lt ==> name == "Lt"@
    &&& op == BinaryOp::LtEq ==> name == "LtEq"@
    &&& op == BinaryOp::Gt ==> name == "Gt"@
    &&& op == BinaryOp::GtEq ==> name == "GtEq"@
    &&& op == BinaryOp::And ==> name == "And"@
    &&& op == BinaryOp::Or ==> name == "Or"@
    &&& op == BinaryOp::Add ==> name == "Add"@
    &&& op == BinaryOp::Sub ==> name == "Sub"@
    &&& op == BinaryOp::Mul ==> name == "Mul"@
    &&& op == BinaryOp::Div ==> name == "Div"@
    &&& op == BinaryOp::Mod ==> name == "Mod"@
}

/// The debug texts of expressions, by which columns without a name are called: the kind of
/// the expression, and what it is made of, in that order.
pub proof fn lemma_expr_texts(
    name: Seq<char>,
    v: ValueView,
    a: ExprView,
    b: ExprView,
    args: Seq<ExprView>,
    op: BinaryOp,
    x: Seq<char>,
)
    requires
        is_name_of(x, op),
    ensures
        expr_debug(ExprView::Column(name)) == "Column("@ + quoted(name) + ")"@,
        expr_debug(ExprView::Literal(v)) == "Literal("@ + value_debug(v) + ")"@,
        expr_debug(ExprView::Wildcard) == "Wildcard"@,
        expr_debug(ExprView::BinaryOp { left: Box::new(a), op, right: Box::new(b) })
            == "BinaryOp { left: "@ + expr_debug(a) + ", op: "@ + x + ", right: "@ + expr_debug(b)
            + " }"@,
        expr_debug(ExprView::UnaryOp { op: UnaryOp::Not, expr: Box::new(a) })
            == "UnaryOp { op: "@ + "Not"@ + ", expr: "@ + expr_debug(a) + " }"@,
        expr_debug(ExprView::UnaryOp { op: UnaryOp::Negate, expr: Box::new(a) })
            == "UnaryOp { op: "@ + "Negate"@ + ", expr: "@ + expr_debug(a) + " }"@,
        expr_debug(ExprView::Function { name, args }) == "Function { name: "@ + quoted(name)
            + ", args: ["@ + listed(args.map_values(|e: ExprView| expr_debug(e))) + "] }"@,
        expr_debug(ExprView::Alias { expr: Box::new(a), name }) == "Alias { expr: "@ + expr_debug(
            a,
        ) + ", name: "@ + quoted(name) + " }"@,
{
    lemma_exprs_listed(args, 0);
    assert(args.skip(0) =~= args);
}

} // verus!

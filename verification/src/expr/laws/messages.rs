//! Laws of why expressions have no value.
use crate::expr::eval::{binary_value, call_value, cast, unary_value, value_of};
use crate::expr::{BinaryOp, ExprView, UnaryOp};
use crate::text::{decimal, integer_text, upper};
use crate::types::{find_column, ColumnView, DataTypeView, RowView};
use crate::value::ValueView;
use vstd::prelude::*;

verus! {

/// Whether there is no value, for a reason.
pub open spec fn fails(r: Result<ValueView, Seq<char>>, why: Seq<char>) -> bool {
    r matches Err(e) && e == why
}

/// Whether a text is the name of the type of a value.
pub open spec fn is_kind_of(name: Seq<char>, v: ValueView) -> bool {
    &&& v is Boolean ==> name == "BOOLEAN"@
    &&& v is Integer ==> name == "INTEGER"@
    &&& v is Double ==> name == "DOUBLE"@
    &&& v is String ==> name == "STRING"@
    &&& v is Timestamp ==> name == "TIMESTAMP"@
    &&& v is Array ==> name == "ARRAY"@
    &&& v is Mapping ==> name == "MAP"@
    &&& v is Null ==> name == "NULL"@
}

/// Whether a value is a number.
pub open spec fn is_number(v: ValueView) -> bool {
    v is Integer || v is Double
}

/// Nothing can be divided by a zero, of either kind, and no remainder taken by the integer
/// zero. Other arithmetic fails where a side is not a number, but for the sum of two texts,
/// and says which types it was given.
pub proof fn lemma_why_no_arithmetic(
    a: ValueView,
    op: BinaryOp,
    b: ValueView,
    x: Seq<char>,
    y: Seq<char>,
)
    requires
        !(a is Null),
        !(b is Null),
        op == BinaryOp::Add || op == BinaryOp::Sub || op == BinaryOp::Mul || op == BinaryOp::Div
            || op == BinaryOp::Mod,
        is_kind_of(x, a),
        is_kind_of(y, b),
    ensures
        ({
            let r = binary_value(a, op, b);
            let by_zero = b == ValueView::Integer(0) || (b matches ValueView::Double(d)
                && d.magnitude() == 0);
            if op == BinaryOp::Div && by_zero {
                fails(r, "Division by zero"@)
            } else if op == BinaryOp::Mod && b == ValueView::Integer(0) {
                fails(r, "Modulo by zero"@)
            } else if is_number(a) && is_number(b) {
                r is Ok
            } else if op == BinaryOp::Add && a is String && b is String {
                r is Ok
            } else {
                fails(r, "Cannot apply arithmetic to "@ + x + " and "@ + y)
            }
        }),
{
}

/// What is not a number has no opposite.
pub proof fn lemma_why_no_opposite(v: ValueView, x: Seq<char>)
    requires
        !(v is Null),
        !is_number(v),
        is_kind_of(x, v),
    ensures
        fails(unary_value(UnaryOp::Negate, v), "Cannot negate "@ + x),
{
}

/// A column that is not there is named, and so is a function.
pub proof fn lemma_why_unknown(
    name: Seq<char>,
    row: RowView,
    schema: Seq<ColumnView>,
    args: Seq<ValueView>,
)
    ensures
        find_column(schema, name, 0) is None && upper(name) != "ROWTIME"@ && upper(name)
            != "ROWKEY"@ && upper(name) != "WINDOWSTART"@ && upper(name) != "WINDOWEND"@ ==> fails(
            value_of(ExprView::Column(name), row, schema),
            "Unknown column: "@ + name,
        ),
        fails(value_of(ExprView::Wildcard, row, schema), "Cannot evaluate wildcard directly"@),
        (call_value(name, upper(name), args) matches Err(e) && args.len() == 0) ==> ({
            let e = call_value(name, upper(name), args)->Err_0;
            ||| e == "Unknown function: "@ + name
            ||| e == name + " requires "@ + decimal(1) + " argument(s), got "@ + decimal(0)
            ||| e == name + " requires "@ + decimal(3) + " argument(s), got "@ + decimal(0)
            ||| e == "SUBSTRING requires 2 or 3 arguments"@
        }),
{
}

/// LIKE takes texts alone.
pub proof fn lemma_why_not_like(
    expr: ExprView,
    pattern: Seq<char>,
    negated: bool,
    row: RowView,
    schema: Seq<ColumnView>,
    x: Seq<char>,
)
    requires
        value_of(expr, row, schema) matches Ok(v) && !(v is String) && !(v is Null) && is_kind_of(
            x,
            v,
        ),
    ensures
        fails(
            value_of(ExprView::Like { expr: Box::new(expr), pattern, negated }, row, schema),
            "LIKE requires a string, got "@ + x,
        ),
{
}

/// What functions say of an argument that they cannot take, and of the number of them.
pub proof fn lemma_why_no_call(name: Seq<char>, v: ValueView, args: Seq<ValueView>)
    requires
        !(v is Null),
    ensures
        !(v is String) ==> fails(call_value(name, "UPPER"@, seq![v]), "UPPER requires a string"@)
            && fails(call_value(name, "UCASE"@, seq![v]), "UPPER requires a string"@),
        !(v is String) ==> fails(call_value(name, "LOWER"@, seq![v]), "LOWER requires a string"@)
            && fails(call_value(name, "LCASE"@, seq![v]), "LOWER requires a string"@),
        !(v is String) && !(v is Array) ==> fails(
            call_value(name, "LEN"@, seq![v]),
            "LEN requires a string or array"@,
        ) && fails(call_value(name, "LENGTH"@, seq![v]), "LEN requires a string or array"@),
        !is_number(v) ==> fails(call_value(name, "ABS"@, seq![v]), "ABS requires a number"@)
            && fails(call_value(name, "CEIL"@, seq![v]), "CEIL requires a number"@) && fails(
            call_value(name, "FLOOR"@, seq![v]),
            "FLOOR requires a number"@,
        ) && fails(call_value(name, "ROUND"@, seq![v]), "ROUND requires a number"@),
        args.len() != 1 ==> fails(
            call_value(name, "UPPER"@, args),
            name + " requires "@ + decimal(1) + " argument(s), got "@ + decimal(args.len()),
        ),
        args.len() != 3 ==> fails(
            call_value(name, "IF"@, args),
            name + " requires "@ + decimal(3) + " argument(s), got "@ + decimal(args.len()),
        ),
        args.len() < 2 || args.len() > 3 ==> fails(
            call_value(name, "SUBSTRING"@, args),
            "SUBSTRING requires 2 or 3 arguments"@,
        ),
{
    lemma_names_apart();
    assert("LEN"@.len() >= 0 && "LENGTH"@.len() >= 0 && "ABS"@.len() >= 0 && "CEIL"@.len() >= 0);
    assert("FLOOR"@.len() >= 0 && "ROUND"@.len() >= 0 && "IF"@.len() >= 0);
    assert("SUBSTRING"@.len() >= 0);
}

proof fn lemma_names_apart()
    ensures
        "LOWER"@ != "UPPER"@ && "LOWER"@ != "UCASE"@,
        "LCASE"@ != "UPPER"@ && "LCASE"@ != "UCASE"@,
        forall|n: Seq<char>|
            #![trigger n.len()]
            (n == "LEN"@ || n == "LENGTH"@ || n == "ABS"@ || n == "CEIL"@ || n == "IF"@ || n
                == "SUBSTRING"@ || n == "FLOOR"@ || n == "ROUND"@) ==> n != "UPPER"@ && n
                != "UCASE"@ && n != "LOWER"@ && n != "LCASE"@,
        forall|n: Seq<char>|
            #![trigger n.len()]
            (n == "ABS"@ || n == "CEIL"@ || n == "IF"@ || n == "SUBSTRING"@ || n == "FLOOR"@ || n
                == "ROUND"@) ==> n != "LEN"@ && n != "LENGTH"@ && n != "CONCAT"@,
        forall|n: Seq<char>|
            #![trigger n.len()]
            (n == "ABS"@ || n == "CEIL"@ || n == "IF"@ || n == "FLOOR"@ || n == "ROUND"@) ==> n
                != "SUBSTRING"@ && n != "SUBSTR"@,
        forall|n: Seq<char>|
            #![trigger n.len()]
            (n == "IF"@ || n == "FLOOR"@ || n == "ROUND"@) ==> n != "ABS"@ && n != "CEIL"@ && n
                != "CEILING"@,
        "CEIL"@ != "ABS"@,
        "ROUND"@ != "FLOOR"@,
        "IF"@ != "FLOOR"@ && "IF"@ != "ROUND"@ && "IF"@ != "COALESCE"@,
{
    reveal_strlit("UPPER");
    reveal_strlit("UCASE");
    reveal_strlit("LOWER");
    reveal_strlit("LCASE");
    reveal_strlit("LEN");
    reveal_strlit("LENGTH");
    reveal_strlit("CONCAT");
    reveal_strlit("SUBSTRING");
    reveal_strlit("SUBSTR");
    reveal_strlit("ABS");
    reveal_strlit("CEIL");
    reveal_strlit("CEILING");
    reveal_strlit("FLOOR");
    reveal_strlit("ROUND");
    reveal_strlit("COALESCE");
    reveal_strlit("IF");
    assert("UPPER"@[0] == 'U' && "UCASE"@[0] == 'U' && "LOWER"@[0] == 'L' && "LCASE"@[0] == 'L');
    assert("LOWER"@[1] == 'O' && "LCASE"@[1] == 'C' && "LEN"@[1] == 'E' && "LENGTH"@[1] == 'E');
    assert("FLOOR"@[0] == 'F' && "ROUND"@[0] == 'R' && "ABS"@[0] == 'A' && "CEIL"@[0] == 'C');
    assert("CEILING"@.len() == 7 && "CONCAT"@[1] == 'O' && "CEIL"@[1] == 'E');
    assert("SUBSTRING"@[0] == 'S' && "IF"@[0] == 'I' && "COALESCE"@[0] == 'C');
}

/// What casts say of a value that they cannot take: its type, or the text itself, and the
/// type that it was to be.
pub proof fn lemma_why_no_cast(v: ValueView, s: Seq<char>, i: i64, x: Seq<char>)
    requires
        is_kind_of(x, v),
    ensures
        v is Double || v is Timestamp || v is Array || v is Mapping ==> fails(
            cast(v, DataTypeView::Boolean),
            "Cannot cast "@ + x + " to "@ + "BOOLEAN"@,
        ),
        v is Timestamp || v is Array || v is Mapping ==> fails(
            cast(v, DataTypeView::Integer),
            "Cannot cast "@ + x + " to "@ + "INTEGER"@,
        ) && fails(
            cast(v, DataTypeView::Double),
            "Cannot cast "@ + x + " to "@ + "DOUBLE"@,
        ),
        v is Boolean || v is Double || v is Array || v is Mapping ==> fails(
            cast(v, DataTypeView::Timestamp),
            "Cannot cast "@ + x + " to "@ + "TIMESTAMP"@,
        ),
        cast(ValueView::String(s), DataTypeView::Integer) is Err ==> fails(
            cast(ValueView::String(s), DataTypeView::Integer),
            "Cannot cast '"@ + s + "' to "@ + "INTEGER"@,
        ),
        cast(ValueView::String(s), DataTypeView::Double) is Err ==> fails(
            cast(ValueView::String(s), DataTypeView::Double),
            "Cannot cast '"@ + s + "' to "@ + "DOUBLE"@,
        ),
        cast(ValueView::String(s), DataTypeView::Timestamp) is Err ==> fails(
            cast(ValueView::String(s), DataTypeView::Timestamp),
            "Cannot cast '"@ + s + "' to "@ + "TIMESTAMP"@,
        ),
        cast(ValueView::Integer(i), DataTypeView::Timestamp) is Err ==> fails(
            cast(ValueView::Integer(i), DataTypeView::Timestamp),
            "Invalid timestamp millis: "@ + integer_text(i as int),
        ),
        cast(v, DataTypeView::String) is Ok,
        cast(v, DataTypeView::BigInt) == cast(v, DataTypeView::Integer),
{
}

} // verus!

//! Laws of the functions that can be called in expressions.
use crate::double::laws::lemma_to_integer;
use crate::double::{unit, Double, INFINITY};
use crate::expr::eval::{
    call_value, concatenation, first_present, known_function, part, size, value_of,
    values_of, wrapped, Known, Simple,
};
use crate::expr::ExprView;
use crate::text::{lower, upper};
use crate::types::{ColumnView, RowView};
use crate::value::{truthy, value_text, ValueView};
use vstd::prelude::*;
use vstd::utf8::encode_utf8;

verus! {

/// A call has the value of the function on the values of its arguments.
pub proof fn lemma_call(
    name: Seq<char>,
    args: Seq<ExprView>,
    row: RowView,
    schema: Seq<ColumnView>,
)
    ensures
        value_of(ExprView::Function { name, args }, row, schema) == match values_of(
            args,
            row,
            schema,
            0,
        ) {
            Ok(values) => call_value(name, upper(name), values),
            Err(e) => Err(e),
        },
{
}

proof fn lemma_names()
    ensures
        known_function("UPPER"@) == Some(Known::Simple(Simple::Upper)),
        known_function("UCASE"@) == Some(Known::Simple(Simple::Upper)),
        known_function("LOWER"@) == Some(Known::Simple(Simple::Lower)),
        known_function("LCASE"@) == Some(Known::Simple(Simple::Lower)),
        known_function("LEN"@) == Some(Known::Simple(Simple::Length)),
        known_function("LENGTH"@) == Some(Known::Simple(Simple::Length)),
        known_function("ABS"@) == Some(Known::Simple(Simple::Absolute)),
        known_function("CEIL"@) == Some(Known::Simple(Simple::Ceiling)),
        known_function("CEILING"@) == Some(Known::Simple(Simple::Ceiling)),
        known_function("FLOOR"@) == Some(Known::Simple(Simple::Floor)),
        known_function("ROUND"@) == Some(Known::Simple(Simple::Round)),
        known_function("CONCAT"@) == Some(Known::Concat),
        known_function("SUBSTRING"@) == Some(Known::Substring),
        known_function("SUBSTR"@) == Some(Known::Substring),
        known_function("COALESCE"@) == Some(Known::Coalesce),
        known_function("IF"@) == Some(Known::If),
        known_function("IIF"@) == Some(Known::If),
{
    reveal_strlit("UPPER");
    reveal_strlit("UCASE");
    reveal_strlit("LOWER");
    reveal_strlit("LCASE");
    reveal_strlit("LEN");
    reveal_strlit("LENGTH");
    reveal_strlit("ABS");
    reveal_strlit("CEIL");
    reveal_strlit("CEILING");
    reveal_strlit("FLOOR");
    reveal_strlit("ROUND");
    reveal_strlit("CONCAT");
    reveal_strlit("SUBSTRING");
    reveal_strlit("SUBSTR");
    reveal_strlit("COALESCE");
    reveal_strlit("IF");
    reveal_strlit("IIF");
    assert("UPPER"@.len() == 5 && "UPPER"@[0] == 'U');
    assert("UCASE"@.len() == 5 && "UCASE"@[0] == 'U');
    assert("LOWER"@.len() == 5 && "LOWER"@[0] == 'L');
    assert("LCASE"@.len() == 5 && "LCASE"@[0] == 'L');
    assert("FLOOR"@.len() == 5 && "FLOOR"@[0] == 'F');
    assert("ROUND"@.len() == 5 && "ROUND"@[0] == 'R');
    assert("LEN"@.len() == 3 && "LEN"@[0] == 'L');
    assert("ABS"@.len() == 3 && "ABS"@[0] == 'A');
    assert("IIF"@.len() == 3 && "IIF"@[0] == 'I');
    assert("LENGTH"@.len() == 6 && "LENGTH"@[0] == 'L');
    assert("CONCAT"@.len() == 6 && "CONCAT"@[0] == 'C');
    assert("SUBSTR"@.len() == 6 && "SUBSTR"@[0] == 'S');
    assert("CEIL"@.len() == 4);
    assert("CEILING"@.len() == 7);
    assert("SUBSTRING"@.len() == 9);
    assert("COALESCE"@.len() == 8);
    assert("IF"@.len() == 2);
}

/// The functions of one argument take just one, and are null where it is, whichever they
/// are.
pub proof fn lemma_one_argument(name: Seq<char>, u: Seq<char>, args: Seq<ValueView>)
    requires
        u == "UPPER"@ || u == "UCASE"@ || u == "LOWER"@ || u == "LCASE"@ || u == "LEN"@ || u
            == "LENGTH"@ || u == "ABS"@ || u == "CEIL"@ || u == "CEILING"@ || u == "FLOOR"@ || u
            == "ROUND"@,
    ensures
        args.len() != 1 ==> call_value(name, u, args) is Err,
        args.len() == 1 && args[0] is Null ==> call_value(name, u, args) == Ok::<
            ValueView,
            Seq<char>,
        >(ValueView::Null),
        args.len() == 1 && (args[0] is Boolean || args[0] is Timestamp || args[0] is Mapping)
            ==> call_value(name, u, args) is Err,
{
    lemma_names();
}

/// UPPER and LOWER, under both of their names, give a text in upper and in lower case.
pub proof fn lemma_letters(name: Seq<char>, u: Seq<char>, s: Seq<char>)
    ensures
        u == "UPPER"@ || u == "UCASE"@ ==> call_value(name, u, seq![ValueView::String(s)]) == Ok::<
            ValueView,
            Seq<char>,
        >(ValueView::String(upper(s))),
        u == "LOWER"@ || u == "LCASE"@ ==> call_value(name, u, seq![ValueView::String(s)]) == Ok::<
            ValueView,
            Seq<char>,
        >(ValueView::String(lower(s))),
{
    lemma_names();
}

/// LENGTH is the number of bytes of a text, and the number of elements of an array.
pub proof fn lemma_length(name: Seq<char>, u: Seq<char>, s: Seq<char>, a: Seq<ValueView>)
    requires
        u == "LEN"@ || u == "LENGTH"@,
        encode_utf8(s).len() <= i64::MAX,
        encode_utf8(s).len() <= usize::MAX,
        a.len() <= i64::MAX,
        a.len() <= usize::MAX,
    ensures
        call_value(name, u, seq![ValueView::String(s)]) matches Ok(ValueView::Integer(n)) && n
            == encode_utf8(s).len(),
        call_value(name, u, seq![ValueView::Array(a)]) matches Ok(ValueView::Integer(n)) && n
            == a.len(),
{
    lemma_names();
}

/// ABS leaves a number without its sign. The least integer has no counterpart, and stays.
pub proof fn lemma_absolute(name: Seq<char>, u: Seq<char>, i: i64, d: Double)
    requires
        u == "ABS"@,
    ensures
        call_value(name, u, seq![ValueView::Integer(i)]) matches Ok(ValueView::Integer(n)) && if i
            == i64::MIN {
            n == i
        } else {
            n >= 0 && (n == i || n == -i)
        },
        call_value(name, u, seq![ValueView::Double(d)]) matches Ok(ValueView::Double(e))
            && !e.negative() && e.size() == d.size() && e.nan() == d.nan(),
{
    lemma_names();
    let n = size(i as int);
    if i != i64::MIN {
        assert(wrapped(n) == n);
    } else {
        assert(n == 0x8000_0000_0000_0000);
        assert((n + 0x8000_0000_0000_0000) % 0x1_0000_0000_0000_0000 == 0);
    }
}

/// FLOOR is the largest integer that is not above a double, CEIL the smallest that is not
/// below it, and ROUND the nearest, halves away from zero. Integers stay as they are.
pub proof fn lemma_rounded(name: Seq<char>, i: i64, d: Double)
    requires
        d.magnitude() < INFINITY,
        i64::MIN * unit() < d.value() < i64::MAX * unit(),
    ensures
        call_value(name, "FLOOR"@, seq![ValueView::Double(d)]) matches Ok(ValueView::Integer(n))
            && n * unit() <= d.value() < (n + 1) * unit(),
        call_value(name, "CEIL"@, seq![ValueView::Double(d)]) matches Ok(ValueView::Integer(n)) && (
        n - 1) * unit() < d.value() <= n * unit(),
        call_value(name, "CEILING"@, seq![ValueView::Double(d)]) == call_value(
            name,
            "CEIL"@,
            seq![ValueView::Double(d)],
        ),
        call_value(name, "ROUND"@, seq![ValueView::Double(d)]) matches Ok(ValueView::Integer(n))
            && if d.value() < 0 {
            -unit() <= 2 * (n * unit() - d.value()) < unit()
        } else {
            -unit() < 2 * (n * unit() - d.value()) <= unit()
        },
        call_value(name, "FLOOR"@, seq![ValueView::Integer(i)]) == Ok::<ValueView, Seq<char>>(
            ValueView::Integer(i),
        ),
        call_value(name, "CEIL"@, seq![ValueView::Integer(i)]) == Ok::<ValueView, Seq<char>>(
            ValueView::Integer(i),
        ),
        call_value(name, "ROUND"@, seq![ValueView::Integer(i)]) == Ok::<ValueView, Seq<char>>(
            ValueView::Integer(i),
        ),
{
    lemma_names();
    lemma_to_integer(d);
}

/// CONCAT puts the texts of its arguments one behind the other, and is null where one of
/// them is: with one argument more it is what it was, with the text of that one behind.
pub proof fn lemma_concat(name: Seq<char>, args: Seq<ValueView>, v: ValueView)
    ensures
        call_value(name, "CONCAT"@, Seq::empty()) == Ok::<ValueView, Seq<char>>(
            ValueView::String(Seq::empty()),
        ),
        call_value(name, "CONCAT"@, args.push(v)) == (match call_value(name, "CONCAT"@, args) {
            Ok(ValueView::String(s)) => if v is Null {
                Ok(ValueView::Null)
            } else {
                Ok(ValueView::String(s + value_text(v)))
            },
            other => other,
        }),
        (exists|i: int| 0 <= i < args.len() && #[trigger] args[i] is Null) ==> call_value(
            name,
            "CONCAT"@,
            args,
        ) == Ok::<ValueView, Seq<char>>(ValueView::Null),
{
    lemma_names();
    lemma_concatenation(args, v, 0);
}

proof fn lemma_concatenation(args: Seq<ValueView>, v: ValueView, i: nat)
    requires
        i <= args.len(),
    ensures
        concatenation(args.push(v), i) == (match concatenation(args, i) {
            Some(s) => if v is Null {
                None
            } else {
                Some(s + value_text(v))
            },
            None => None,
        }),
        (exists|k: int| i <= k < args.len() && #[trigger] args[k] is Null) ==> concatenation(
            args,
            i,
        ) is None,
    decreases args.len() - i,
{
    let all = args.push(v);
    if i < args.len() {
        assert(all[i as int] == args[i as int]);
        lemma_concatenation(args, v, i + 1);
        if let Some(s) = concatenation(args, i + 1) {
            assert(value_text(args[i as int]) + (s + value_text(v)) =~= (value_text(args[i as int])
                + s) + value_text(v));
        }
    } else {
        assert(all[i as int] == v);
        reveal_with_fuel(concatenation, 2);
        assert(value_text(v) + Seq::<char>::empty() =~= Seq::<char>::empty() + value_text(v));
    }
}

/// SUBSTRING of a text from the `start`-th character on is the text without the characters
/// before it; with a length it has at most so many characters. Beyond the end there are
/// none.
pub proof fn lemma_substring(name: Seq<char>, u: Seq<char>, s: Seq<char>, start: i64, length: i64)
    requires
        u == "SUBSTRING"@ || u == "SUBSTR"@,
        1 <= start,
        0 <= length,
        encode_utf8(s).len() <= i64::MAX,
        encode_utf8(s).len() <= usize::MAX,
        s.len() <= encode_utf8(s).len(),
    ensures
        call_value(name, u, seq![ValueView::String(s), ValueView::Integer(start)]) == Ok::<
            ValueView,
            Seq<char>,
        >(
            ValueView::String(
                if start - 1 <= s.len() {
                    s.subrange(start - 1, s.len() as int)
                } else {
                    Seq::empty()
                },
            ),
        ),
        call_value(
            name,
            u,
            seq![ValueView::String(s), ValueView::Integer(start), ValueView::Integer(length)],
        ) == Ok::<ValueView, Seq<char>>(
            ValueView::String(
                if start - 1 > s.len() {
                    Seq::empty()
                } else if start - 1 + length <= s.len() {
                    s.subrange(start - 1, start - 1 + length)
                } else {
                    s.subrange(start - 1, s.len() as int)
                },
            ),
        ),
{
    lemma_names();
    let skipped = start - 1;
    let whole = part(s, start, encode_utf8(s).len() as int);
    let some = part(s, start, length as int);
    if skipped <= s.len() {
        assert(whole =~= s.subrange(skipped, s.len() as int));
        if skipped + length <= s.len() {
            assert(some =~= s.subrange(skipped, skipped + length));
        } else {
            assert(some =~= s.subrange(skipped, s.len() as int));
        }
    }
}

/// COALESCE is the first of its arguments that is not null, and null where all are.
pub proof fn lemma_coalesce(name: Seq<char>, args: Seq<ValueView>, n: int)
    requires
        0 <= n <= args.len(),
        forall|i: int| 0 <= i < n ==> #[trigger] args[i] is Null,
        n < args.len() ==> !(args[n] is Null),
    ensures
        call_value(name, "COALESCE"@, args) == Ok::<ValueView, Seq<char>>(
            if n < args.len() {
                args[n]
            } else {
                ValueView::Null
            },
        ),
{
    lemma_names();
    lemma_first_present(args, 0, n as nat);
}

proof fn lemma_first_present(args: Seq<ValueView>, i: nat, n: nat)
    requires
        i <= n <= args.len(),
        forall|k: int| 0 <= k < n ==> #[trigger] args[k] is Null,
        n < args.len() ==> !(args[n as int] is Null),
    ensures
        first_present(args, i) == if n < args.len() {
            args[n as int]
        } else {
            ValueView::Null
        },
    decreases n - i,
{
    if i < n {
        assert(args[i as int] is Null);
        lemma_first_present(args, i + 1, n);
    }
}

/// IF, under both of its names, is its second argument where the first counts as true,
/// and its third where it does not. It takes just three.
pub proof fn lemma_if(name: Seq<char>, u: Seq<char>, args: Seq<ValueView>)
    requires
        u == "IF"@ || u == "IIF"@,
    ensures
        args.len() == 3 ==> call_value(name, u, args) == Ok::<ValueView, Seq<char>>(
            if truthy(args[0]) {
                args[1]
            } else {
                args[2]
            },
        ),
        args.len() != 3 ==> call_value(name, u, args) is Err,
{
    lemma_names();
}

/// No other function is known.
pub proof fn lemma_unknown_function(name: Seq<char>, u: Seq<char>, args: Seq<ValueView>)
    requires
        u != "UPPER"@ && u != "UCASE"@ && u != "LOWER"@ && u != "LCASE"@ && u != "LEN"@ && u
            != "LENGTH"@ && u != "ABS"@ && u != "CEIL"@ && u != "CEILING"@ && u != "FLOOR"@ && u
            != "ROUND"@ && u != "CONCAT"@ && u != "SUBSTRING"@ && u != "SUBSTR"@ && u
            != "COALESCE"@ && u != "IF"@ && u != "IIF"@,
    ensures
        call_value(name, u, args) is Err,
{
}

} // verus!

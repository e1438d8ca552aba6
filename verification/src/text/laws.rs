//! Laws of texts.
use crate::text::{
    ascii_lower, ascii_upper, decimal, digit, folded, integer_text, same_letters,
};
use vstd::prelude::*;

verus! {

/// Whether two texts are the same but for the case of ASCII letters: at each place they
/// have the same character, or one has the capital letter of the other.
pub open spec fn differ_in_case(a: Seq<char>, b: Seq<char>) -> bool {
    a.len() == b.len() && forall|i: int|
        0 <= i < a.len() ==> #[trigger] a[i] == b[i] || ('A' <= a[i] <= 'Z' && b[i] as int
            == a[i] as int + 32) || ('A' <= b[i] <= 'Z' && a[i] as int == b[i] as int + 32)
}

proof fn lemma_lower(c: char)
    ensures
        'A' <= c <= 'Z' ==> ascii_lower(c) as int == c as int + 32 && ascii_upper(c) == c,
        !('A' <= c <= 'Z') ==> ascii_lower(c) == c,
        'a' <= c <= 'z' ==> ascii_upper(c) as int == c as int - 32,
        !('a' <= c <= 'z') ==> ascii_upper(c) == c,
{
}

/// Texts have the same letters exactly where they are the same but for the case.
pub proof fn lemma_same_letters(a: Seq<char>, b: Seq<char>)
    ensures
        same_letters(a, b) <==> differ_in_case(a, b),
{
    if same_letters(a, b) {
        assert(folded(a).len() == a.len() && folded(b).len() == b.len());
        assert forall|i: int| 0 <= i < a.len() implies #[trigger] a[i] == b[i] || ('A' <= a[i]
            <= 'Z' && b[i] as int == a[i] as int + 32) || ('A' <= b[i] <= 'Z' && a[i] as int
            == b[i] as int + 32) by {
            assert(folded(a)[i] == folded(b)[i]);
            lemma_lower(a[i]);
            lemma_lower(b[i]);
        }
    }
    if differ_in_case(a, b) {
        assert forall|i: int| 0 <= i < a.len() implies folded(a)[i] == folded(b)[i] by {
            assert(a[i] == a[i]);
            lemma_lower(a[i]);
            lemma_lower(b[i]);
        }
        assert(folded(a) =~= folded(b));
    }
}

/// The number that digits stand for.
pub open spec fn number_of(s: Seq<char>) -> int
    decreases s.len(),
{
    if s.len() == 0 {
        0
    } else {
        10 * number_of(s.drop_last()) + (s.last() as int - '0' as int)
    }
}

/// A natural number is written in decimal digits that stand for it, without a zero before
/// them but that of zero itself. A negative number has a minus before those of its size.
pub proof fn lemma_written(n: nat)
    ensures
        number_of(decimal(n)) == n,
        decimal(n).len() > 0,
        forall|i: int| 0 <= i < decimal(n).len() ==> '0' <= #[trigger] decimal(n)[i] <= '9',
        n > 0 ==> decimal(n)[0] != '0',
        integer_text(n as int) == decimal(n),
        n > 0 ==> integer_text(-(n as int)) == seq!['-'] + decimal(n),
    decreases n,
{
    assert(forall|d: nat| d < 10 ==> #[trigger] digit(d) as int == 0x30 + d);
    if n < 10 {
        let s = seq![digit(n)];
        assert(s.drop_last() =~= Seq::<char>::empty());
        reveal_with_fuel(number_of, 2);
        assert(s.last() == digit(n));
    } else {
        let s = decimal(n / 10);
        lemma_written(n / 10);
        assert(s.push(digit(n % 10)).drop_last() =~= s);
    }
}

} // verus!

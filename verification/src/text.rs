//! Text: the comparisons and conversions that queries need.
use vstd::prelude::*;
use vstd::utf8::is_ascii_chars;

pub mod laws;

verus! {

/// `String::push` adds one character at the end.
pub assume_specification[ std::string::String::push ](s: &mut std::string::String, c: char)
    ensures
        final(s)@ == old(s)@.push(c),
;

/// What `str::to_uppercase` makes of a text.
pub uninterp spec fn upper(s: Seq<char>) -> Seq<char>;

/// What `str::to_lowercase` makes of a text.
pub uninterp spec fn lower(s: Seq<char>) -> Seq<char>;

/// The upper-case form of an ASCII letter; any other character as it is.
pub open spec fn ascii_upper(c: char) -> char {
    if 'a' <= c <= 'z' {
        (c as u32 - 32) as char
    } else {
        c
    }
}

/// The lower-case form of an ASCII letter; any other character as it is.
pub open spec fn ascii_lower(c: char) -> char {
    if 'A' <= c <= 'Z' {
        (c as u32 + 32) as char
    } else {
        c
    }
}

/// A text with its ASCII letters in lower case.
pub open spec fn folded(s: Seq<char>) -> Seq<char> {
    s.map_values(|c: char| ascii_lower(c))
}

/// Whether two texts differ in the case of ASCII letters at most.
pub open spec fn same_letters(a: Seq<char>, b: Seq<char>) -> bool {
    folded(a) == folded(b)
}

/// What is known of a text in upper case: of a text in ASCII it is the text with each
/// letter in upper case.
pub open spec fn upper_of_ascii(s: Seq<char>) -> bool {
    is_ascii_chars(s) ==> upper(s) == s.map_values(|c: char| ascii_upper(c))
}

/// What is known of a text in lower case: of a text in ASCII it is the text with each
/// letter in lower case.
pub open spec fn lower_of_ascii(s: Seq<char>) -> bool {
    is_ascii_chars(s) ==> lower(s) == folded(s)
}

/// The order of texts by their characters' code points.
pub open spec fn precedes(a: Seq<char>, b: Seq<char>) -> bool
    decreases a.len(),
{
    if b.len() == 0 {
        false
    } else if a.len() == 0 {
        true
    } else if a[0] != b[0] {
        a[0] < b[0]
    } else {
        precedes(a.drop_first(), b.drop_first())
    }
}

/// No text precedes itself.
pub proof fn lemma_precedes_irreflexive(a: Seq<char>)
    ensures
        !precedes(a, a),
    decreases a.len(),
{
    if a.len() > 0 {
        lemma_precedes_irreflexive(a.drop_first());
    }
}

/// Of two texts not both precede the other.
pub proof fn lemma_precedes_asymmetric(a: Seq<char>, b: Seq<char>)
    ensures
        !(precedes(a, b) && precedes(b, a)),
    decreases a.len(),
{
    if a.len() > 0 && b.len() > 0 && a[0] == b[0] {
        lemma_precedes_asymmetric(a.drop_first(), b.drop_first());
    }
}

/// A text that precedes another precedes what the other precedes.
pub proof fn lemma_precedes_transitive(a: Seq<char>, b: Seq<char>, c: Seq<char>)
    requires
        precedes(a, b),
        precedes(b, c),
    ensures
        precedes(a, c),
    decreases a.len(),
{
    if a.len() > 0 && a[0] == b[0] && b[0] == c[0] {
        lemma_precedes_transitive(a.drop_first(), b.drop_first(), c.drop_first());
    }
}

/// Of two texts one precedes the other, unless they are the same.
pub proof fn lemma_precedes_total(a: Seq<char>, b: Seq<char>)
    ensures
        precedes(a, b) || precedes(b, a) || a == b,
    decreases a.len(),
{
    if a.len() > 0 && b.len() > 0 && a[0] == b[0] {
        lemma_precedes_total(a.drop_first(), b.drop_first());
        if a.drop_first() == b.drop_first() {
            assert(a.len() == a.drop_first().len() + 1);
            assert(b.len() == b.drop_first().len() + 1);
            assert forall|i: int| 0 <= i < a.len() implies a[i] == b[i] by {
                if i > 0 {
                    assert(a[i] == a.drop_first()[i - 1]);
                    assert(b[i] == b.drop_first()[i - 1]);
                }
            }
            assert(a =~= b);
        }
    } else if a.len() == 0 && b.len() == 0 {
        assert(a =~= b);
    }
}

/// `str::to_uppercase`. The result is named; of a text in ASCII it is the text
/// with each letter in upper case.
#[verifier::external_body]
pub(crate) fn to_upper(s: &str) -> (r: String)
    ensures
        r@ == upper(s@),
        is_ascii_chars(s@) ==> r@ == s@.map_values(|c: char| ascii_upper(c)),
{
    s.to_uppercase()
}

/// `str::to_lowercase`. The result is named; of a text in ASCII it is the text
/// with each letter in lower case.
#[verifier::external_body]
pub(crate) fn to_lower(s: &str) -> (r: String)
    ensures
        r@ == lower(s@),
        is_ascii_chars(s@) ==> r@ == folded(s@),
{
    s.to_lowercase()
}

/// What the `Debug` of `str` makes of a text.
pub uninterp spec fn quoted(s: Seq<char>) -> Seq<char>;

/// The `Debug` of `str`. The result is named.
#[verifier::external_body]
pub(crate) fn to_quoted(s: &str) -> (r: String)
    ensures
        r@ == quoted(s@),
{
    format!("{:?}", s)
}

/// The characters of a text.
pub fn chars_of(s: &str) -> (r: Vec<char>)
    ensures
        r@ == s@,
{
    let mut r: Vec<char> = Vec::new();
    for c in it: s.chars()
        invariant
            r@ == it.seq().take(it.index()),
            it.seq() == s@,
    {
        r.push(c);
    }
    r
}

/// The text made of some characters.
pub fn text_of(chars: &Vec<char>) -> (r: String)
    ensures
        r@ == chars@,
{
    let mut r = String::new();
    let mut i: usize = 0;
    while i < chars.len()
        invariant
            i <= chars.len(),
            r@ == chars@.take(i as int),
        decreases chars.len() - i,
    {
        r.push(chars[i]);
        i = i + 1;
    }
    r
}

/// Whether two texts hold the same characters.
pub fn same_text(a: &str, b: &str) -> (r: bool)
    ensures
        r == (a@ == b@),
{
    a.to_owned() == b.to_owned()
}

/// Whether a text comes before another.
pub fn text_precedes(a: &str, b: &str) -> (r: bool)
    ensures
        r == precedes(a@, b@),
{
    let x = chars_of(a);
    let y = chars_of(b);
    let mut i: usize = 0;
    proof {
        assert(x@.skip(0) == x@ && y@.skip(0) == y@);
    }
    loop
        invariant
            x@ == a@,
            y@ == b@,
            i <= x.len(),
            i <= y.len(),
            precedes(a@, b@) == precedes(x@.skip(i as int), y@.skip(i as int)),
        decreases x.len() - i,
    {
        if i == y.len() {
            return false;
        }
        if i == x.len() {
            return true;
        }
        if x[i] != y[i] {
            return x[i] < y[i];
        }
        proof {
            assert(x@.skip(i as int).drop_first() == x@.skip(i + 1));
            assert(y@.skip(i as int).drop_first() == y@.skip(i + 1));
        }
        i = i + 1;
    }
}

/// The lower-case form of an ASCII letter; any other character as it is.
pub fn lower_char(c: char) -> (r: char)
    ensures
        r == ascii_lower(c),
{
    if 'A' <= c && c <= 'Z' {
        ((c as u8) + 32) as char
    } else {
        c
    }
}

/// Whether two texts differ in the case of ASCII letters at most.
pub fn equal_ignoring_case(a: &str, b: &str) -> (r: bool)
    ensures
        r == same_letters(a@, b@),
{
    let x = chars_of(a);
    let y = chars_of(b);
    if x.len() != y.len() {
        proof {
            assert(folded(a@).len() != folded(b@).len());
        }
        return false;
    }
    let mut i: usize = 0;
    while i < x.len()
        invariant
            x@ == a@,
            y@ == b@,
            i <= x.len() == y.len(),
            forall|j: int| 0 <= j < i ==> ascii_lower(x@[j]) == ascii_lower(y@[j]),
        decreases x.len() - i,
    {
        if lower_char(x[i]) != lower_char(y[i]) {
            proof {
                assert(folded(a@)[i as int] != folded(b@)[i as int]);
            }
            return false;
        }
        i = i + 1;
    }
    proof {
        assert(folded(a@) =~= folded(b@));
    }
    true
}

/// The decimal digit with the given value.
pub open spec fn digit(d: nat) -> char {
    (0x30 + d) as u8 as char
}

/// A natural number in decimal.
pub open spec fn decimal(n: nat) -> Seq<char>
    decreases n,
{
    if n < 10 {
        seq![digit(n)]
    } else {
        decimal(n / 10).push(digit(n % 10))
    }
}

/// Two digits with different values are different.
proof fn lemma_digit_distinct(a: nat, b: nat)
    requires
        a < 10,
        b < 10,
        digit(a) == digit(b),
    ensures
        a == b,
{
    assert((0x30 + a) as u8 == 0x30 + a);
    assert((0x30 + b) as u8 == 0x30 + b);
}

/// Two numbers are written differently.
pub proof fn lemma_decimal_distinct(a: nat, b: nat)
    ensures
        decimal(a) == decimal(b) ==> a == b,
        decimal(a).len() > 0,
    decreases a,
{
    if a >= 10 {
        lemma_decimal_distinct(a / 10, b / 10);
    }
    if decimal(a) == decimal(b) {
        lemma_decimal_length(a);
        lemma_decimal_length(b);
        if a < 10 && b < 10 {
            assert(decimal(a)[0] == decimal(b)[0]);
            lemma_digit_distinct(a, b);
        } else if a >= 10 && b >= 10 {
            assert(decimal(a).last() == decimal(b).last());
            assert(decimal(a).drop_last() =~= decimal(a / 10));
            assert(decimal(b).drop_last() =~= decimal(b / 10));
            lemma_digit_distinct(a % 10, b % 10);
        }
    }
}

/// A number of more than one digit is written longer than one digit.
proof fn lemma_decimal_length(n: nat)
    ensures
        decimal(n).len() >= 1,
        n >= 10 ==> decimal(n).len() > 1,
    decreases n,
{
    if n >= 10 {
        lemma_decimal_length(n / 10);
    }
}

/// An integer in decimal.
pub open spec fn integer_text(i: int) -> Seq<char> {
    if i < 0 {
        seq!['-'] + decimal((-i) as nat)
    } else {
        decimal(i as nat)
    }
}

/// Writes a natural number in decimal.
pub fn nat_to_text(n: u64) -> (r: String)
    ensures
        r@ == decimal(n as nat),
    decreases n,
{
    let c = ((n % 10) as u8 + 0x30u8) as char;
    if n < 10 {
        let mut r = String::new();
        r.push(c);
        proof {
            assert(r@ =~= decimal(n as nat));
        }
        r
    } else {
        let mut r = nat_to_text(n / 10);
        r.push(c);
        r
    }
}

/// Writes an integer in decimal.
pub fn integer_to_text(i: i64) -> (r: String)
    ensures
        r@ == integer_text(i as int),
{
    if i < 0 {
        let mut r = String::new();
        r.push('-');
        let size: u64 = (-(i as i128)) as u64;
        r.append(nat_to_text(size).as_str());
        proof {
            assert(r@ =~= integer_text(i as int));
        }
        r
    } else {
        nat_to_text(i as u64)
    }
}

/// Why a text is not an integer.
#[derive(Clone, Copy, Debug, PartialEq, Eq, Structural)]
pub enum IntegerError {
    Empty,
    InvalidDigit,
    TooLarge,
    TooSmall,
}

/// Whether a character is a decimal digit.
pub open spec fn is_digit(c: char) -> bool {
    '0' <= c <= '9'
}

/// The value of a decimal digit.
pub open spec fn digit_value(c: char) -> int {
    c as u32 - 0x30
}

/// Reads decimal digits from the left, behind those that made `acc`.
pub open spec fn read_digits(s: Seq<char>, acc: int, negative: bool) -> Result<i64, IntegerError>
    decreases s.len(),
{
    if s.len() == 0 {
        Ok(acc as i64)
    } else if !is_digit(s[0]) {
        Err(IntegerError::InvalidDigit)
    } else {
        let next = if negative { acc * 10 - digit_value(s[0]) } else { acc * 10 + digit_value(s[0]) };
        if next > i64::MAX {
            Err(IntegerError::TooLarge)
        } else if next < i64::MIN {
            Err(IntegerError::TooSmall)
        } else {
            read_digits(s.drop_first(), next, negative)
        }
    }
}

/// Reads an integer in decimal, with an optional sign.
pub open spec fn read_integer(s: Seq<char>) -> Result<i64, IntegerError> {
    if s.len() == 0 {
        Err(IntegerError::Empty)
    } else if s[0] == '-' || s[0] == '+' {
        if s.len() == 1 {
            Err(IntegerError::InvalidDigit)
        } else {
            read_digits(s.drop_first(), 0, s[0] == '-')
        }
    } else {
        read_digits(s, 0, false)
    }
}

/// Reads an integer in decimal, with an optional sign.
pub fn text_to_integer(s: &str) -> (r: Result<i64, IntegerError>)
    ensures
        r == read_integer(s@),
{
    let x = chars_of(s);
    if x.len() == 0 {
        return Err(IntegerError::Empty);
    }
    let negative = x[0] == '-';
    let signed = negative || x[0] == '+';
    if signed && x.len() == 1 {
        return Err(IntegerError::InvalidDigit);
    }
    let mut i: usize = if signed {
        1
    } else {
        0
    };
    let mut acc: i64 = 0;
    proof {
        assert(s@.skip(0) == s@);
        assert(s@.skip(1) == s@.drop_first());
    }
    while i < x.len()
        invariant
            x@ == s@,
            i <= x.len(),
            read_integer(s@) == read_digits(s@.skip(i as int), acc as int, negative),
        decreases x.len() - i,
    {
        let c = x[i];
        if !('0' <= c && c <= '9') {
            return Err(IntegerError::InvalidDigit);
        }
        let d: i128 = (c as u8 - 0x30u8) as i128;
        let next: i128 = if negative {
            acc as i128 * 10 - d
        } else {
            acc as i128 * 10 + d
        };
        if next > 0x7fff_ffff_ffff_ffff {
            return Err(IntegerError::TooLarge);
        }
        if next < -0x8000_0000_0000_0000 {
            return Err(IntegerError::TooSmall);
        }
        proof {
            assert(s@.skip(i as int).drop_first() == s@.skip(i + 1));
        }
        acc = next as i64;
        i = i + 1;
    }
    Ok(acc)
}

proof fn lemma_digit(d: nat)
    requires
        d < 10,
    ensures
        is_digit(digit(d)),
        digit_value(digit(d)) == d,
{
    assert((0x30 + d) as u8 == 0x30 + d);
}

/// Digits that make a number in range are read as that number, whatever is behind
/// them.
proof fn lemma_read_digits(n: nat, negative: bool, rest: Seq<char>)
    requires
        if negative {
            -(n as int) >= i64::MIN
        } else {
            n <= i64::MAX
        },
    ensures
        read_digits(decimal(n) + rest, 0, negative) == read_digits(
            rest,
            if negative {
                -(n as int)
            } else {
                n as int
            },
            negative,
        ),
    decreases n,
{
    let last = n % 10;
    lemma_digit(last);
    if n < 10 {
        let text = decimal(n) + rest;
        assert(text[0] == digit(n));
        assert(text.drop_first() =~= rest);
    } else {
        let more = seq![digit(last)] + rest;
        lemma_read_digits(n / 10, negative, more);
        assert(decimal(n) + rest =~= decimal(n / 10) + more);
        assert(more[0] == digit(last));
        assert(more.drop_first() =~= rest);
    }
}

/// A decimal starts with a digit.
proof fn lemma_decimal_start(n: nat)
    ensures
        decimal(n).len() > 0,
        is_digit(decimal(n)[0]),
    decreases n,
{
    if n < 10 {
        lemma_digit(n);
    } else {
        lemma_decimal_start(n / 10);
    }
}

/// An integer that is written is read as itself.
pub proof fn lemma_integer_round_trip(i: i64)
    ensures
        read_integer(integer_text(i as int)) == Ok::<i64, IntegerError>(i),
{
    let none = Seq::<char>::empty();
    if i < 0 {
        let n = (-(i as int)) as nat;
        let text = integer_text(i as int);
        lemma_decimal_start(n);
        lemma_read_digits(n, true, none);
        assert(text[0] == '-');
        assert(text.drop_first() =~= decimal(n));
        assert(decimal(n) + none =~= decimal(n));
    } else {
        let n = i as nat;
        lemma_decimal_start(n);
        lemma_read_digits(n, false, none);
        assert(decimal(n) + none =~= decimal(n));
    }
}

} // verus!

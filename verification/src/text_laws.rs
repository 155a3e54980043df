//! What the order and the texts of this library mean, by positions.

use crate::text::{
    bytes_less, contains_text, decimal, decimal_text, digits_value, index_of_text,
    lemma_encode_utf8_injective, lemma_str_less_irreflexive, lemma_str_less_transitive,
    occurs_at, parse_index, str_contains, str_eq, str_less, str_lt,
};
use vstd::prelude::*;
use vstd::utf8::encode_utf8;

verus! {

// ---------------------------------------------------------------------------
// Order
// ---------------------------------------------------------------------------
/// Two byte strings agree before a position.
pub open spec fn agree_before(a: Seq<u8>, b: Seq<u8>, i: int) -> bool {
    &&& 0 <= i <= a.len()
    &&& i <= b.len()
    &&& forall|j: int| 0 <= j < i ==> #[trigger] a[j] == b[j]
}

/// One byte string comes before another by what is at a position: it ends
/// there and the other does not, or its byte is the smaller.
pub open spec fn before_at(a: Seq<u8>, b: Seq<u8>, i: int) -> bool {
    &&& agree_before(a, b, i)
    &&& i < b.len()
    &&& i == a.len() || a[i] < b[i]
}

proof fn lemma_first(a: Seq<u8>, b: Seq<u8>, i: int)
    requires
        before_at(a, b, i),
    ensures
        bytes_less(a, b),
    decreases i,
{
    if i > 0 {
        assert(a[0] == b[0]);
        let x = a.drop_first();
        let y = b.drop_first();
        assert forall|j: int| 0 <= j < i - 1 implies #[trigger] x[j] == y[j] by {
            assert(x[j] == a[j + 1] && y[j] == b[j + 1]);
            assert(a[j + 1] == b[j + 1]);
        }
        lemma_first(x, y, i - 1);
    }
}

proof fn lemma_where(a: Seq<u8>, b: Seq<u8>) -> (i: int)
    requires
        bytes_less(a, b),
    ensures
        before_at(a, b, i),
    decreases a.len(),
{
    if a.len() == 0 || a[0] != b[0] {
        0
    } else {
        let i = lemma_where(a.drop_first(), b.drop_first());
        assert forall|j: int| 0 <= j < i + 1 implies #[trigger] a[j] == b[j] by {
            if j > 0 {
                assert(a.drop_first()[j - 1] == b.drop_first()[j - 1]);
            }
        }
        i + 1
    }
}

/// The order of strings is the lexicographic one of their UTF-8 bytes: where
/// two agree before a position, the one whose byte there is the smaller comes
/// first, whatever the lengths, and one that ends there comes before one that
/// goes on.
pub proof fn law_strings_are_ordered_by_their_bytes(a: &str, b: &str, i: int, r: bool, s: bool)
    requires
        call_ensures(str_lt, (a, b), r),
        call_ensures(str_lt, (b, a), s),
        agree_before(encode_utf8(a@), encode_utf8(b@), i),
    ensures
        ({
            let x = encode_utf8(a@);
            let y = encode_utf8(b@);
            &&& i < x.len() && i < y.len() && x[i] < y[i] ==> r && !s
            &&& i == x.len() && i < y.len() ==> r && !s
            &&& i == x.len() && i == y.len() ==> !r && !s
        }),
{
    law_str_less_by_positions(a@, b@);
    law_str_less_by_positions(b@, a@);
    let x = encode_utf8(a@);
    let y = encode_utf8(b@);
    if i < y.len() && (i == x.len() || x[i] < y[i]) {
        assert(before_at(x, y, i));
        if s {
            lemma_str_less_transitive(a@, b@, a@);
            lemma_str_less_irreflexive(a@);
        }
    }
    if i == x.len() && i == y.len() {
        assert(x =~= y);
        lemma_encode_utf8_injective(a@, b@);
        lemma_str_less_irreflexive(a@);
    }
}

/// A string is less than another exactly where their bytes agree up to a
/// position at which it ends and the other does not, or has the smaller byte.
pub proof fn law_str_less_by_positions(a: Seq<char>, b: Seq<char>)
    ensures
        str_less(a, b) <==> exists|i: int| #[trigger]
            before_at(encode_utf8(a), encode_utf8(b), i),
{
    let x = encode_utf8(a);
    let y = encode_utf8(b);
    if str_less(a, b) {
        let i = lemma_where(x, y);
        assert(before_at(x, y, i));
    }
    if exists|i: int| #[trigger] before_at(x, y, i) {
        let i = choose|i: int| #[trigger] before_at(x, y, i);
        lemma_first(x, y, i);
    }
}

/// Two strings are told to be equal exactly where they have the same
/// characters.
pub proof fn law_equal_strings_have_equal_characters(a: &str, b: &str, r: bool)
    requires
        call_ensures(str_eq, (a, b), r),
    ensures
        r <==> a@.len() == b@.len() && forall|i: int|
            0 <= i < a@.len() ==> #[trigger] a@[i] == b@[i],
{
    if a@.len() == b@.len() && forall|i: int| 0 <= i < a@.len() ==> #[trigger] a@[i] == b@[i] {
        assert(a@ =~= b@);
    }
}

// ---------------------------------------------------------------------------
// Occurrence
// ---------------------------------------------------------------------------
/// A text is told to occur in another exactly where, from some position of the
/// other on, its characters follow each other.
pub proof fn law_texts_occur_where_they_stand(text: &str, part: &str, r: bool)
    requires
        call_ensures(str_contains, (text, part), r),
    ensures
        r <==> exists|i: int|
            0 <= i && i + part@.len() <= text@.len() && #[trigger] stands_at(text@, part@, i),
{
    law_contained_texts_stand_somewhere(text@, part@);
}

/// From a position on, the characters of a text are those of another.
pub open spec fn stands_at(text: Seq<char>, part: Seq<char>, i: int) -> bool {
    forall|j: int| 0 <= j < part.len() ==> text[i + j] == #[trigger] part[j]
}

/// A text is contained in another exactly where its characters follow each
/// other somewhere in it.
pub proof fn law_contained_texts_stand_somewhere(text: Seq<char>, part: Seq<char>)
    ensures
        contains_text(text, part) <==> exists|i: int|
            0 <= i && i + part.len() <= text.len() && #[trigger] stands_at(text, part, i),
{
    reveal(contains_text);
    if contains_text(text, part) {
        let i = choose|i: int| occurs_at(text, part, i);
        assert forall|j: int| 0 <= j < part.len() implies text[i + j] == #[trigger] part[j] by {
            assert(text.subrange(i, i + part.len())[j] == text[i + j]);
        }
        assert(stands_at(text, part, i));
    }
    if exists|i: int|
        0 <= i && i + part.len() <= text.len() && #[trigger] stands_at(text, part, i) {
        let i = choose|i: int|
            0 <= i && i + part.len() <= text.len() && #[trigger] stands_at(text, part, i);
        assert(text.subrange(i, i + part.len()) =~= part) by {
            assert forall|j: int| 0 <= j < part.len() implies text.subrange(i, i + part.len())[j]
                == part[j] by {
                assert(text[i + j] == part[j]);
            }
        }
        assert(occurs_at(text, part, i));
    }
}

// ---------------------------------------------------------------------------
// Numbers
// ---------------------------------------------------------------------------
/// What a decimal digit stands for.
pub open spec fn digit_of(c: char) -> int {
    c as int - 48
}

/// The characters are decimal digits.
pub open spec fn all_digits(s: Seq<char>) -> bool {
    forall|i: int| 0 <= i < s.len() ==> 0 <= digit_of(#[trigger] s[i]) <= 9
}

/// What decimal digits stand for: each is worth ten times the one after it.
pub open spec fn place_value(s: Seq<char>) -> int
    decreases s.len(),
{
    if s.len() == 0 {
        0
    } else {
        digit_of(s[0]) * vstd::arithmetic::power::pow(10, (s.len() - 1) as nat) + place_value(
            s.drop_first(),
        )
    }
}

proof fn lemma_place_value(s: Seq<char>)
    requires
        s.len() > 0,
    ensures
        place_value(s) == 10 * place_value(s.drop_last()) + digit_of(s.last()),
    decreases s.len(),
{
    let n = (s.len() - 1) as nat;
    vstd::arithmetic::power::lemma_pow0(10);
    if s.len() == 1 {
        assert(s.drop_first() =~= Seq::empty());
        assert(s.drop_last() =~= Seq::empty());
        let d = digit_of(s[0]);
        assert(place_value(s.drop_first()) == 0);
        assert(d * 1 == d);
    } else {
        let rest = s.drop_first();
        lemma_place_value(rest);
        let front = s.drop_last();
        assert(front.drop_first() =~= rest.drop_last());
        assert(rest.last() == s.last());
        let d = digit_of(s[0]);
        let p = vstd::arithmetic::power::pow(10, (n - 1) as nat);
        vstd::arithmetic::power::lemma_pow_adds(10, 1, (n - 1) as nat);
        vstd::arithmetic::power::lemma_pow1(10);
        assert(vstd::arithmetic::power::pow(10, n) == 10 * p);
        assert(d * (10 * p) == 10 * (d * p)) by (nonlinear_arith);
        assert(place_value(front) == d * p + place_value(front.drop_first()));
    }
}

proof fn lemma_decimal(n: nat)
    ensures
        decimal(n).len() > 0,
        all_digits(decimal(n)),
        place_value(decimal(n)) == n,
        n > 0 ==> digit_of(decimal(n)[0]) > 0,
        decimal(n).len() > 1 ==> n >= 10,
    decreases n,
{
    let s = decimal(n);
    if n >= 10 {
        lemma_decimal(n / 10);
        let front = decimal(n / 10);
        assert(s.drop_last() =~= front);
        assert(digit_of(s.last()) == n % 10);
        assert forall|i: int| 0 <= i < s.len() implies 0 <= digit_of(#[trigger] s[i]) <= 9 by {
            if i < front.len() {
                assert(s[i] == front[i]);
            }
        }
        assert(s[0] == front[0]);
    } else {
        assert(s =~= seq![s[0]]);
        assert(s.drop_last() =~= Seq::empty());
    }
    lemma_place_value(s);
}

/// The decimal text of a number is made of digits, the first of which is not
/// zero unless it is the only one, and these stand for the number.
pub proof fn law_decimal_texts_stand_for_their_numbers(n: u64, r: String)
    requires
        call_ensures(decimal_text, (n,), r),
    ensures
        r@.len() > 0,
        all_digits(r@),
        place_value(r@) == n,
        r@.len() > 1 ==> digit_of(r@[0]) > 0,
{
    lemma_decimal(n as nat);
}

proof fn lemma_digits(s: Seq<char>)
    ensures
        digits_value(s) is Some <==> all_digits(s),
        digits_value(s) matches Some(v) ==> v == place_value(s),
    decreases s.len(),
{
    if s.len() > 0 {
        let front = s.drop_last();
        lemma_digits(front);
        lemma_place_value(s);
        if all_digits(s) {
            assert forall|i: int| 0 <= i < front.len() implies 0 <= digit_of(#[trigger] front[i])
                <= 9 by {
                assert(front[i] == s[i]);
            }
            assert(0 <= digit_of(s[s.len() - 1]) <= 9);
        }
        if digits_value(s) is Some {
            assert forall|i: int| 0 <= i < s.len() implies 0 <= digit_of(#[trigger] s[i]) <= 9 by {
                if i < front.len() {
                    assert(front[i] == s[i]);
                }
            }
        }
    }
}

/// A text gives the position that its digits stand for: digits alone, at least
/// one, perhaps after a plus sign, for a number in range.
pub proof fn law_positions_are_what_their_digits_stand_for(s: &str, r: Option<usize>)
    requires
        call_ensures(parse_index, (s,), r),
    ensures
        ({
            let digits = if s@.len() > 0 && s@[0] == '+' {
                s@.skip(1)
            } else {
                s@
            };
            &&& r is Some <==> digits.len() > 0 && all_digits(digits) && place_value(digits)
                <= usize::MAX
            &&& r matches Some(v) ==> v == place_value(digits)
        }),
{
    law_index_of_text(s@);
}

/// The position that a text gives is the number that its digits stand for.
pub proof fn law_index_of_text(s: Seq<char>)
    ensures
        ({
            let digits = if s.len() > 0 && s[0] == '+' {
                s.skip(1)
            } else {
                s
            };
            let r = index_of_text(s);
            &&& r is Some <==> digits.len() > 0 && all_digits(digits) && place_value(digits)
                <= usize::MAX
            &&& r matches Some(v) ==> v == place_value(digits)
        }),
{
    let digits = if s.len() > 0 && s[0] == '+' {
        s.skip(1)
    } else {
        s
    };
    lemma_digits(digits);
}

} // verus!

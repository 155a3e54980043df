//! JSON values and their text.

use crate::nd::F64;
use crate::text::{
    lemma_str_less_irreflexive, lemma_str_less_total, lemma_str_less_transitive, str_eq, str_less,
    str_lt,
};
use vstd::prelude::*;

verus! {

/// A JSON number: an integer from zero on, a negative integer, or a float.
#[derive(Clone, Copy, Debug, PartialEq, Eq, Structural)]
pub enum JsonNumber {
    PosInt(u64),
    NegInt(i64),
    Float(F64),
}

/// A JSON value. Of two members of an object with one key the later counts.
pub enum Json {
    Null,
    Bool(bool),
    Number(JsonNumber),
    String(String),
    Array(Vec<Json>),
    Object(Vec<(String, Json)>),
}

/// What a JSON value is, apart from the order of the members of its objects.
#[verifier::ext_equal]
pub enum JsonView {
    Null,
    Bool { value: bool },
    Number { number: JsonNumber },
    Text { chars: Seq<char> },
    Array { items: Seq<JsonView> },
    Object { members: Map<Seq<char>, JsonView> },
}

/// A value by its view.
pub open spec fn json_view(j: Json) -> JsonView
    decreases j, 0nat,
{
    match j {
        Json::Null => JsonView::Null,
        Json::Bool(value) => JsonView::Bool { value },
        Json::Number(number) => JsonView::Number { number },
        Json::String(s) => JsonView::Text { chars: s@ },
        Json::Array(v) => JsonView::Array { items: items_view(v@, v@.len()) },
        Json::Object(v) => JsonView::Object { members: members_view(v@, v@.len()) },
    }
}

/// The first `n` items of an array by their views.
pub open spec fn items_view(s: Seq<Json>, n: nat) -> Seq<JsonView>
    decreases s, n,
{
    if n == 0 || n > s.len() {
        Seq::empty()
    } else {
        items_view(s, (n - 1) as nat).push(json_view(s[n - 1]))
    }
}

/// The first `n` members of an object by their views.
pub open spec fn members_view(s: Seq<(String, Json)>, n: nat) -> Map<Seq<char>, JsonView>
    decreases s, n,
{
    if n == 0 || n > s.len() {
        Map::empty()
    } else {
        members_view(s, (n - 1) as nat).insert(s[n - 1].0@, json_view(s[n - 1].1))
    }
}

impl View for Json {
    type V = JsonView;

    open spec fn view(&self) -> JsonView {
        json_view(*self)
    }
}

// ---------------------------------------------------------------------------
// Numbers
// ---------------------------------------------------------------------------
/// Whether a bit pattern is that of a 64-bit float that is neither infinite
/// nor undefined: its exponent is not all ones.
pub open spec fn finite_bits(bits: u64) -> bool {
    (bits as int / 0x10_0000_0000_0000) % 0x800 != 0x7ff
}

/// The text of a 64-bit float.
pub uninterp spec fn float_text(bits: u64) -> Seq<char>;

/// The 64-bit float nearest to an integer from zero on.
pub uninterp spec fn float_of_u64(n: u64) -> u64;

/// The 64-bit float nearest to an integer.
pub uninterp spec fn float_of_i64(n: i64) -> u64;

/// A character of a number: a digit, a sign, a point or the `e` of an exponent.
pub open spec fn is_number_char(c: char) -> bool {
    ('0' <= c <= '9') || c == '-' || c == '+' || c == '.' || c == 'e'
}

/// A text such as numbers have: not empty, and of their characters alone.
pub open spec fn is_number_text(s: Seq<char>) -> bool {
    s.len() > 0 && forall|i: int| 0 <= i < s.len() ==> is_number_char(#[trigger] s[i])
}

/// `serde_json::Number::from_f64`, and the text of the number that it gives:
/// it gives one exactly for the floats that are neither infinite nor
/// undefined, and the text depends on the float alone and is made of digits,
/// signs, a point and an `e`. `bytemuck::cast` only turns the bit pattern into
/// the float.
#[verifier::external_body]
fn float_string(bits: u64) -> (r: Option<String>)
    ensures
        r is Some <==> finite_bits(bits),
        r matches Some(s) ==> s@ == float_text(bits) && is_number_text(s@),
{
    serde_json::Number::from_f64(bytemuck::cast(bits)).map(|n| n.to_string())
}

/// `serde_json::Number::as_f64` of an integer from zero on: the nearest float,
/// which is finite.
#[verifier::external_body]
fn u64_as_float(n: u64) -> (r: Option<u64>)
    ensures
        r == Some(float_of_u64(n)),
        r matches Some(bits) ==> finite_bits(bits),
{
    serde_json::Number::from(n).as_f64().map(|f| f.to_bits())
}

/// `serde_json::Number::as_f64` of an integer: the nearest float, which is
/// finite.
#[verifier::external_body]
fn i64_as_float(n: i64) -> (r: Option<u64>)
    ensures
        r == Some(float_of_i64(n)),
        r matches Some(bits) ==> finite_bits(bits),
{
    serde_json::Number::from(n).as_f64().map(|f| f.to_bits())
}

/// The 64-bit float that a number is taken for: an integer is taken for the
/// nearest.
pub open spec fn float_bits(n: JsonNumber) -> u64 {
    match n {
        JsonNumber::PosInt(u) => float_of_u64(u),
        JsonNumber::NegInt(i) => float_of_i64(i),
        JsonNumber::Float(f) => f.bits,
    }
}

/// A number as a float.
pub open spec fn as_float(n: JsonNumber) -> JsonNumber {
    JsonNumber::Float(F64 { bits: float_bits(n) })
}

/// The text of a number: that of the float it is taken for, so that `1` and
/// `1.0` have one text.
pub open spec fn number_text(n: JsonNumber) -> Seq<char> {
    float_text(float_bits(n))
}

/// Whether a number is one that JSON can write.
pub open spec fn finite_number(n: JsonNumber) -> bool {
    match n {
        JsonNumber::Float(f) => finite_bits(f.bits),
        _ => true,
    }
}

fn number_string(n: JsonNumber) -> (r: String)
    requires
        finite_number(n),
    ensures
        r@ == number_text(n),
        is_number_text(r@),
{
    let bits: Option<u64> = match n {
        JsonNumber::PosInt(u) => u64_as_float(u),
        JsonNumber::NegInt(i) => i64_as_float(i),
        JsonNumber::Float(f) => Some(f.bits),
    };
    let text: Option<String> = match bits {
        Some(bits) => float_string(bits),
        None => None,
    };
    match text {
        Some(s) => s,
        None => vstd::pervasive::unreached(),
    }
}

// ---------------------------------------------------------------------------
// Strings
// ---------------------------------------------------------------------------
/// A lower-case hexadecimal digit.
pub open spec fn hex_digit(d: int) -> char {
    if d < 10 {
        ('0' as int + d) as char
    } else {
        ('a' as int + d - 10) as char
    }
}

/// A character inside quotes.
pub open spec fn escaped_char(c: char) -> Seq<char> {
    if c == '"' {
        seq!['\\', '"']
    } else if c == '\\' {
        seq!['\\', '\\']
    } else if c as u32 == 8 {
        seq!['\\', 'b']
    } else if c as u32 == 9 {
        seq!['\\', 't']
    } else if c as u32 == 10 {
        seq!['\\', 'n']
    } else if c as u32 == 12 {
        seq!['\\', 'f']
    } else if c as u32 == 13 {
        seq!['\\', 'r']
    } else if (c as u32) < 32 {
        seq!['\\', 'u', '0', '0', hex_digit(c as int / 16), hex_digit(c as int % 16)]
    } else {
        seq![c]
    }
}

/// The characters inside quotes.
pub open spec fn escaped(s: Seq<char>) -> Seq<char>
    decreases s.len(),
{
    if s.len() == 0 {
        Seq::empty()
    } else {
        escaped(s.drop_last()) + escaped_char(s.last())
    }
}

/// A string in quotes.
pub open spec fn quoted(s: Seq<char>) -> Seq<char> {
    seq!['"'] + escaped(s) + seq!['"']
}

/// `serde_json::to_string` of a string, which does not fail: the string in
/// quotes, with quotes, backslashes and control characters escaped.
#[verifier::external_body]
fn quoted_string(s: &str) -> (r: String)
    ensures
        r@ == quoted(s@),
{
    serde_json::to_string(s).unwrap_or_default()
}

// ---------------------------------------------------------------------------
// Keys in order
// ---------------------------------------------------------------------------
/// The strings come in ascending order, none twice.
pub open spec fn ascending(s: Seq<Seq<char>>) -> bool {
    forall|i: int, j: int| 0 <= i < j < s.len() ==> str_less(#[trigger] s[i], #[trigger] s[j])
}

/// The strings of a set in ascending order.
pub open spec fn lists(s: Seq<Seq<char>>, keys: Set<Seq<char>>) -> bool {
    &&& ascending(s)
    &&& forall|k: Seq<char>| #[trigger] keys.contains(k) <==> s.contains(k)
}

/// The strings of a finite set in ascending order.
pub open spec fn in_order(keys: Set<Seq<char>>) -> Seq<Seq<char>> {
    choose|s: Seq<Seq<char>>| lists(s, keys)
}

proof fn lemma_one_listing(s: Seq<Seq<char>>, t: Seq<Seq<char>>)
    requires
        ascending(s),
        ascending(t),
        forall|k: Seq<char>| s.contains(k) <==> t.contains(k),
    ensures
        s == t,
    decreases s.len(),
{
    if s.len() == 0 {
        if t.len() > 0 {
            assert(t.contains(t[0]));
            assert(s.contains(t[0]));
        }
        assert(s =~= t);
    } else {
        assert(s.contains(s.last()));
        assert(t.contains(s.last()));
        let j = choose|j: int| 0 <= j < t.len() && t[j] == s.last();
        assert(t.contains(t.last()));
        assert(s.contains(t.last()));
        let i = choose|i: int| 0 <= i < s.len() && s[i] == t.last();
        if j < t.len() - 1 {
            assert(str_less(t[j], t[t.len() - 1]));
            if i < s.len() - 1 {
                assert(str_less(s[i], s[s.len() - 1]));
                lemma_str_less_transitive(t[j], t[t.len() - 1], t[j]);
            }
            lemma_str_less_irreflexive(t[j]);
        }
        let a = s.drop_last();
        let b = t.drop_last();
        assert forall|k: Seq<char>| a.contains(k) <==> b.contains(k) by {
            if a.contains(k) {
                let x = choose|x: int| 0 <= x < a.len() && a[x] == k;
                assert(s[x] == k);
                assert(s.contains(k));
                let y = choose|y: int| 0 <= y < t.len() && t[y] == k;
                if y == t.len() - 1 {
                    assert(str_less(s[x], s[s.len() - 1]));
                    lemma_str_less_irreflexive(k);
                }
                assert(b[y] == k);
            }
            if b.contains(k) {
                let x = choose|x: int| 0 <= x < b.len() && b[x] == k;
                assert(t[x] == k);
                assert(t.contains(k));
                let y = choose|y: int| 0 <= y < s.len() && s[y] == k;
                if y == s.len() - 1 {
                    assert(str_less(t[x], t[t.len() - 1]));
                    lemma_str_less_irreflexive(k);
                }
                assert(a[y] == k);
            }
        }
        lemma_one_listing(a, b);
        assert(s =~= a.push(s.last()));
        assert(t =~= b.push(t.last()));
    }
}

/// There is one listing of a set in ascending order.
pub proof fn lemma_in_order(s: Seq<Seq<char>>, keys: Set<Seq<char>>)
    requires
        lists(s, keys),
    ensures
        in_order(keys) == s,
{
    let t = in_order(keys);
    assert(lists(t, keys));
    assert forall|k: Seq<char>| s.contains(k) <==> t.contains(k) by {
        assert(keys.contains(k) <==> s.contains(k));
        assert(keys.contains(k) <==> t.contains(k));
    }
    lemma_one_listing(s, t);
}

// ---------------------------------------------------------------------------
// Text
// ---------------------------------------------------------------------------
/// The canonical text of a value: no space, the members of each object in
/// ascending order of their keys, and every number as a float.
pub open spec fn json_text(v: JsonView) -> Seq<char>
    decreases v, 0nat,
{
    match v {
        JsonView::Null => "null"@,
        JsonView::Bool { value } => if value {
            "true"@
        } else {
            "false"@
        },
        JsonView::Number { number } => number_text(number),
        JsonView::Text { chars } => quoted(chars),
        JsonView::Array { items } => "["@ + items_text(items, items.len()) + "]"@,
        JsonView::Object { members } => {
            let keys = in_order(members.dom());
            "{"@ + members_text(members, keys, keys.len()) + "}"@
        },
    }
}

/// The text of the first `n` items of an array.
pub open spec fn items_text(items: Seq<JsonView>, n: nat) -> Seq<char>
    decreases items, n,
{
    if n == 0 || n > items.len() {
        Seq::empty()
    } else if n == 1 {
        json_text(items[0])
    } else {
        items_text(items, (n - 1) as nat) + ","@ + json_text(items[n - 1])
    }
}

/// One member of an object.
pub open spec fn member_text(members: Map<Seq<char>, JsonView>, key: Seq<char>) -> Seq<char>
    decreases members, 0nat,
{
    if members.dom().finite() && members.dom().contains(key) {
        quoted(key) + ":"@ + json_text(members[key])
    } else {
        Seq::empty()
    }
}

/// The text of the members with the first `n` keys.
pub open spec fn members_text(
    members: Map<Seq<char>, JsonView>,
    keys: Seq<Seq<char>>,
    n: nat,
) -> Seq<char>
    decreases members, n,
{
    if n == 0 || n > keys.len() {
        Seq::empty()
    } else if n == 1 {
        member_text(members, keys[0])
    } else {
        members_text(members, keys, (n - 1) as nat) + ","@ + member_text(members, keys[n - 1])
    }
}

/// Whether every number in a value is one that JSON can write.
pub open spec fn all_finite(v: JsonView) -> bool
    decreases v,
{
    match v {
        JsonView::Number { number } => finite_number(number),
        JsonView::Array { items } => forall|i: int|
            0 <= i < items.len() ==> all_finite(#[trigger] items[i]),
        JsonView::Object { members } => forall|k: Seq<char>| #[trigger]
            members.dom().contains(k) ==> all_finite(members[k]),
        _ => true,
    }
}

/// Whether every number in a value has a text such as numbers have. It is so
/// of every value that has been written.
pub open spec fn readable(v: JsonView) -> bool
    decreases v,
{
    match v {
        JsonView::Number { number } => is_number_text(number_text(number)),
        JsonView::Array { items } => forall|i: int|
            0 <= i < items.len() ==> readable(#[trigger] items[i]),
        JsonView::Object { members } => members.dom().finite() && forall|k: Seq<char>| #[trigger]
            members.dom().contains(k) ==> readable(members[k]),
        _ => true,
    }
}

// ---------------------------------------------------------------------------
// Writing
// ---------------------------------------------------------------------------
/// The keys of members.
pub open spec fn member_keys(s: Seq<(String, Json)>) -> Seq<Seq<char>> {
    Seq::new(s.len(), |i: int| s[i].0@)
}

/// `picked` are the keys at the given positions: of the first `n` keys, each
/// once, in ascending order, and each position is the last of its key.
spec fn orders(
    keys: Seq<Seq<char>>,
    n: int,
    order: Seq<usize>,
    picked: Seq<Seq<char>>,
) -> bool {
    &&& picked.len() == order.len()
    &&& forall|q: int| 0 <= q < order.len() ==> 0 <= (#[trigger] order[q]) < n
    &&& forall|q: int| 0 <= q < order.len() ==> picked[q] == keys[(#[trigger] order[q]) as int]
    &&& ascending(picked)
    &&& forall|i: int| 0 <= i < n ==> picked.contains(#[trigger] keys[i])
    &&& forall|q: int, i: int|
        0 <= q < order.len() && (#[trigger] order[q]) < i < n ==> (#[trigger] keys[i]) != picked[q]
}

pub proof fn lemma_items_view(s: Seq<Json>, n: nat)
    requires
        n <= s.len(),
    ensures
        items_view(s, n).len() == n,
        forall|i: int| 0 <= i < n ==> #[trigger] items_view(s, n)[i] == json_view(s[i]),
    decreases n,
{
    if n > 0 {
        lemma_items_view(s, (n - 1) as nat);
    }
}

pub proof fn lemma_members_dom(s: Seq<(String, Json)>, n: nat, k: Seq<char>)
    requires
        n <= s.len(),
    ensures
        members_view(s, n).dom().contains(k) <==> exists|i: int|
            0 <= i < n && (#[trigger] s[i]).0@ == k,
        members_view(s, n).dom().finite(),
    decreases n,
{
    if n > 0 {
        lemma_members_dom(s, (n - 1) as nat, k);
        if s[n - 1].0@ == k {
            assert(exists|i: int| 0 <= i < n && (#[trigger] s[i]).0@ == k);
        }
    }
}

pub proof fn lemma_members_at(s: Seq<(String, Json)>, n: nat, i: int)
    requires
        0 <= i < n <= s.len(),
        forall|j: int| i < j < n ==> (#[trigger] s[j]).0@ != s[i].0@,
    ensures
        members_view(s, n).dom().contains(s[i].0@),
        members_view(s, n)[s[i].0@] == json_view(s[i].1),
    decreases n,
{
    if i < n - 1 {
        lemma_members_at(s, (n - 1) as nat, i);
        assert(s[n - 1].0@ != s[i].0@);
    }
}

proof fn lemma_placed(
    keys: Seq<Seq<char>>,
    n: int,
    order: Seq<usize>,
    picked: Seq<Seq<char>>,
    p: int,
)
    requires
        0 <= n < keys.len(),
        n <= usize::MAX,
        orders(keys, n, order, picked),
        0 <= p <= picked.len(),
        forall|q: int| 0 <= q < p ==> str_less(#[trigger] picked[q], keys[n]),
        p < picked.len() ==> !str_less(picked[p], keys[n]),
        !(p < picked.len() && picked[p] == keys[n]),
    ensures
        orders(keys, n + 1, order.insert(p, n as usize), picked.insert(p, keys[n])),
{
    let k = keys[n];
    let after = order.insert(p, n as usize);
    let now = picked.insert(p, k);
    if p < picked.len() {
        if !str_less(k, picked[p]) {
            lemma_str_less_total(k, picked[p]);
        }
    }
    assert forall|q: int| p <= q < picked.len() implies str_less(k, #[trigger] picked[q]) by {
        if q > p {
            assert(str_less(picked[p], picked[q]));
            lemma_str_less_transitive(k, picked[p], picked[q]);
        }
    }
    assert forall|i: int, j: int| 0 <= i < j < now.len() implies str_less(
        #[trigger] now[i],
        #[trigger] now[j],
    ) by {
        let oi = if i < p {
            i
        } else {
            i - 1
        };
        let oj = if j < p {
            j
        } else {
            j - 1
        };
        if i != p {
            assert(now[i] == picked[oi]);
        }
        if j != p {
            assert(now[j] == picked[oj]);
        }
    }
    assert forall|q: int| 0 <= q < after.len() implies now[q] == keys[(
    #[trigger] after[q]) as int] && 0 <= after[q] < n + 1 by {
        let o = if q < p {
            q
        } else {
            q - 1
        };
        if q != p {
            assert(after[q] == order[o]);
            assert(now[q] == picked[o]);
        }
    }
    assert forall|i: int| 0 <= i < n + 1 implies now.contains(#[trigger] keys[i]) by {
        if i == n {
            assert(now[p] == k);
        } else {
            assert(picked.contains(keys[i]));
            let q = choose|q: int| 0 <= q < picked.len() && picked[q] == keys[i];
            if q < p {
                assert(now[q] == picked[q]);
            } else {
                assert(now[q + 1] == picked[q]);
            }
        }
    }
    assert forall|q: int, i: int|
        0 <= q < after.len() && (#[trigger] after[q]) < i < n + 1 implies (#[trigger] keys[i])
        != now[q] by {
        if q != p {
            let o = if q < p {
                q
            } else {
                q - 1
            };
            assert(after[q] == order[o]);
            assert(now[q] == picked[o]);
            if i == n {
                lemma_str_less_irreflexive(k);
            }
        }
    }
}

proof fn lemma_replaced(
    keys: Seq<Seq<char>>,
    n: int,
    order: Seq<usize>,
    picked: Seq<Seq<char>>,
    p: int,
)
    requires
        0 <= n < keys.len(),
        n <= usize::MAX,
        orders(keys, n, order, picked),
        0 <= p < picked.len(),
        picked[p] == keys[n],
    ensures
        orders(keys, n + 1, order.update(p, n as usize), picked),
{
    let after = order.update(p, n as usize);
    assert forall|i: int| 0 <= i < n + 1 implies picked.contains(#[trigger] keys[i]) by {
        if i == n {
            assert(picked[p] == keys[n]);
        }
    }
    assert forall|q: int, i: int|
        0 <= q < after.len() && (#[trigger] after[q]) < i < n + 1 implies (#[trigger] keys[i])
        != picked[q] by {
        if q != p {
            assert(after[q] == order[q]);
            if i == n {
                if q < p {
                    assert(str_less(picked[q], picked[p]));
                } else {
                    assert(str_less(picked[p], picked[q]));
                }
                lemma_str_less_irreflexive(picked[p]);
            }
        }
    }
    assert forall|q: int| 0 <= q < after.len() implies picked[q] == keys[(
    #[trigger] after[q]) as int] && 0 <= after[q] < n + 1 by {
        if q != p {
            assert(after[q] == order[q]);
        }
    }
}

/// The positions of the members in ascending order of their keys; of members
/// with one key, that of the last.
fn key_order(s: &Vec<(String, Json)>) -> (r: (Vec<usize>, Ghost<Seq<Seq<char>>>))
    ensures
        orders(member_keys(s@), s@.len() as int, r.0@, r.1@),
{
    let ghost keys = member_keys(s@);
    let ghost mut picked: Seq<Seq<char>> = Seq::empty();
    let mut order: Vec<usize> = Vec::new();
    let mut n: usize = 0;
    while n < s.len()
        invariant
            n <= s@.len(),
            keys == member_keys(s@),
            orders(keys, n as int, order@, picked),
        decreases s@.len() - n,
    {
        let mut p: usize = 0;
        while p < order.len() && str_lt(s[order[p]].0.as_str(), s[n].0.as_str())
            invariant
                p <= order@.len(),
                n < s@.len(),
                keys == member_keys(s@),
                orders(keys, n as int, order@, picked),
                forall|q: int| 0 <= q < p ==> str_less(#[trigger] picked[q], keys[n as int]),
            decreases order@.len() - p,
        {
            assert(picked[p as int] == keys[order@[p as int] as int]);
            p = p + 1;
        }
        let present = p < order.len() && str_eq(s[order[p]].0.as_str(), s[n].0.as_str());
        proof {
            if p < order@.len() {
                assert(picked[p as int] == keys[order@[p as int] as int]);
            }
        }
        if present {
            proof {
                lemma_replaced(keys, n as int, order@, picked, p as int);
            }
            order.set(p, n);
        } else {
            proof {
                lemma_placed(keys, n as int, order@, picked, p as int);
                picked = picked.insert(p as int, keys[n as int]);
            }
            order.insert(p, n);
        }
        n = n + 1;
    }
    (order, Ghost(picked))
}

proof fn lemma_listed(s: Seq<(String, Json)>, order: Seq<usize>, picked: Seq<Seq<char>>)
    requires
        orders(member_keys(s), s.len() as int, order, picked),
    ensures
        members_view(s, s.len()).dom().finite(),
        lists(picked, members_view(s, s.len()).dom()),
        in_order(members_view(s, s.len()).dom()) == picked,
{
    let dom = members_view(s, s.len()).dom();
    let keys = member_keys(s);
    assert forall|k: Seq<char>| #[trigger] dom.contains(k) <==> picked.contains(k) by {
        lemma_members_dom(s, s.len(), k);
        if dom.contains(k) {
            let i = choose|i: int| 0 <= i < s.len() && (#[trigger] s[i]).0@ == k;
            assert(keys[i] == k);
        }
        if picked.contains(k) {
            let q = choose|q: int| 0 <= q < picked.len() && picked[q] == k;
            assert(picked[q] == keys[order[q] as int]);
            assert(s[order[q] as int].0@ == k);
        }
    }
    lemma_members_dom(s, s.len(), Seq::empty());
    lemma_in_order(picked, dom);
}

proof fn lemma_last(
    s: Seq<(String, Json)>,
    order: Seq<usize>,
    picked: Seq<Seq<char>>,
    q: int,
)
    requires
        orders(member_keys(s), s.len() as int, order, picked),
        0 <= q < order.len(),
    ensures
        0 <= order[q] < s.len(),
        picked[q] == s[order[q] as int].0@,
        members_view(s, s.len()).dom().contains(picked[q]),
        members_view(s, s.len())[picked[q]] == json_view(s[order[q] as int].1),
{
    let keys = member_keys(s);
    let at = order[q] as int;
    assert(picked[q] == keys[at]);
    assert forall|j: int| at < j < s.len() implies (#[trigger] s[j]).0@ != s[at].0@ by {
        assert(keys[j] != picked[q]);
    }
    lemma_members_at(s, s.len(), at);
}

proof fn lemma_finite_item(items: Seq<JsonView>, i: int)
    requires
        all_finite(JsonView::Array { items }),
        0 <= i < items.len(),
    ensures
        all_finite(items[i]),
{
    reveal_with_fuel(all_finite, 3);
    let v = JsonView::Array { items };
    assert(v is Array && v->items == items);
    assert(all_finite(v) == forall|x: int|
        0 <= x < items.len() ==> all_finite(#[trigger] items[x]));
}

proof fn lemma_finite_member(members: Map<Seq<char>, JsonView>, key: Seq<char>)
    requires
        all_finite(JsonView::Object { members }),
        members.dom().contains(key),
    ensures
        all_finite(members[key]),
{
    reveal_with_fuel(all_finite, 3);
    let v = JsonView::Object { members };
    assert(v is Object && v->members == members);
    assert(all_finite(v) == forall|k: Seq<char>| #[trigger]
        members.dom().contains(k) ==> all_finite(members[k]));
}

pub proof fn lemma_readable_items(items: Seq<JsonView>)
    requires
        forall|i: int| 0 <= i < items.len() ==> readable(#[trigger] items[i]),
    ensures
        readable(JsonView::Array { items }),
{
    reveal_with_fuel(readable, 3);
    let v = JsonView::Array { items };
    assert(v is Array && v->items == items);
    assert(readable(v) == forall|x: int| 0 <= x < items.len() ==> readable(#[trigger] items[x]));
}

proof fn lemma_readable_members(members: Map<Seq<char>, JsonView>, keys: Seq<Seq<char>>)
    requires
        members.dom().finite(),
        lists(keys, members.dom()),
        forall|k: int| 0 <= k < keys.len() ==> readable(members[#[trigger] keys[k]]),
    ensures
        readable(JsonView::Object { members }),
{
    reveal_with_fuel(readable, 3);
    let v = JsonView::Object { members };
    assert(v is Object && v->members == members);
    assert forall|k: Seq<char>| #[trigger] members.dom().contains(k) implies readable(
        members[k],
    ) by {
        assert(keys.contains(k));
        let i = choose|i: int| 0 <= i < keys.len() && keys[i] == k;
        assert(readable(members[keys[i]]));
    }
    assert(readable(v) == (members.dom().finite() && forall|k: Seq<char>| #[trigger]
        members.dom().contains(k) ==> readable(members[k])));
}

/// The canonical text of a value.
pub fn write_json(j: &Json) -> (r: String)
    requires
        all_finite(j@),
    ensures
        r@ == json_text(j@),
        readable(j@),
    decreases j,
{
    match j {
        Json::Null => "null".to_owned(),
        Json::Bool(value) => {
            if *value {
                "true".to_owned()
            } else {
                "false".to_owned()
            }
        },
        Json::Number(number) => number_string(*number),
        Json::String(s) => quoted_string(s.as_str()),
        Json::Array(v) => {
            let ghost items = items_view(v@, v@.len());
            let mut out = "[".to_owned();
            let mut body = String::new();
            let mut i: usize = 0;
            proof {
                lemma_items_view(v@, v@.len());
            }
            assert(body@ =~= items_text(items, 0));
            while i < v.len()
                invariant
                    i <= v@.len(),
                    *j == Json::Array(*v),
                    all_finite(j@),
                    items == items_view(v@, v@.len()),
                    items.len() == v@.len(),
                    body@ == items_text(items, i as nat),
                    forall|k: int| 0 <= k < i ==> readable(#[trigger] items[k]),
                decreases v@.len() - i,
            {
                proof {
                    lemma_items_view(v@, v@.len());
                    assert(j@ == (JsonView::Array { items }));
                    lemma_finite_item(items, i as int);
                }
                let text = write_json(&v[i]);
                if i > 0 {
                    body.append(",");
                    body.append(text.as_str());
                } else {
                    body = text;
                }
                i = i + 1;
            }
            out.append(body.as_str());
            out.append("]");
            proof {
                lemma_readable_items(items);
            }
            out
        },
        Json::Object(v) => {
            let (order, Ghost(keys)) = key_order(v);
            let ghost members = members_view(v@, v@.len());
            proof {
                lemma_listed(v@, order@, keys);
            }
            let mut out = "{".to_owned();
            let mut body = String::new();
            let mut i: usize = 0;
            assert(body@ =~= members_text(members, keys, 0));
            while i < order.len()
                invariant
                    i <= order@.len(),
                    *j == Json::Object(*v),
                    all_finite(j@),
                    orders(member_keys(v@), v@.len() as int, order@, keys),
                    members == members_view(v@, v@.len()),
                    members.dom().finite(),
                    body@ == members_text(members, keys, i as nat),
                    forall|k: int| 0 <= k < i ==> readable(members[#[trigger] keys[k]]),
                decreases order@.len() - i,
            {
                let at: usize = order[i];
                proof {
                    lemma_last(v@, order@, keys, i as int);
                    assert(j@ == (JsonView::Object { members }));
                    lemma_finite_member(members, keys[i as int]);
                }
                let mut text = quoted_string(v[at].0.as_str());
                text.append(":");
                text.append(write_json(&v[at].1).as_str());
                assert(text@ == member_text(members, keys[i as int]));
                if i > 0 {
                    body.append(",");
                    body.append(text.as_str());
                } else {
                    body = text;
                }
                i = i + 1;
            }
            out.append(body.as_str());
            out.append("}");
            proof {
                lemma_readable_members(members, keys);
            }
            out
        },
    }
}

} // verus!

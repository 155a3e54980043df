//! What the canonical text of a JSON value tells of the value.

use crate::json::{
    as_float, ascending, escaped, escaped_char, in_order, is_number_char, is_number_text,
    items_text, json_text, lemma_in_order, lemma_readable_items, lists, member_text, members_text,
    number_text, quoted, readable, JsonNumber, JsonView,
};
use crate::text::{lemma_str_less_total, lemma_str_less_transitive, str_less};
use vstd::prelude::*;

verus! {

/// A number has one canonical text however it is held: an integer has that of
/// the float nearest to it.
pub proof fn law_numbers_share_their_text(n: u64, i: i64)
    ensures
        json_text(JsonView::Number { number: JsonNumber::PosInt(n) }) == json_text(
            JsonView::Number { number: as_float(JsonNumber::PosInt(n)) },
        ),
        json_text(JsonView::Number { number: JsonNumber::NegInt(i) }) == json_text(
            JsonView::Number { number: as_float(JsonNumber::NegInt(i)) },
        ),
{
}

/// Every finite set of strings has a listing in ascending order.
proof fn lemma_listing(keys: Set<Seq<char>>) -> (s: Seq<Seq<char>>)
    requires
        keys.finite(),
    ensures
        lists(s, keys),
    decreases keys.len(),
{
    if keys.len() == 0 {
        let s = Seq::<Seq<char>>::empty();
        assert(keys =~= Set::empty());
        s
    } else {
        let k = keys.choose();
        let rest = keys.remove(k);
        let t = lemma_listing(rest);
        assert(!t.contains(k)) by {
            assert(!rest.contains(k));
        }
        let s = lemma_inserted(t, k);
        assert forall|x: Seq<char>| #[trigger] keys.contains(x) <==> s.contains(x) by {
            assert(rest.contains(x) <==> t.contains(x));
        }
        s
    }
}

/// Where a string that is not in a listing would stand.
proof fn lemma_place(t: Seq<Seq<char>>, k: Seq<char>) -> (p: int)
    requires
        ascending(t),
        !t.contains(k),
    ensures
        0 <= p <= t.len(),
        ascending(t.insert(p, k)),
    decreases t.len(),
{
    if t.len() == 0 {
        0
    } else {
        let last = t.last();
        assert(t.contains(last)) by {
            assert(t[t.len() - 1] == last);
        }
        if str_less(last, k) {
            let now = t.insert(t.len() as int, k);
            assert forall|i: int, j: int| 0 <= i < j < now.len() implies str_less(
                #[trigger] now[i],
                #[trigger] now[j],
            ) by {
                if j == t.len() && i < t.len() - 1 {
                    assert(str_less(t[i], t[t.len() - 1]));
                    lemma_str_less_transitive(t[i], last, k);
                }
            }
            t.len() as int
        } else {
            if !str_less(k, last) {
                lemma_str_less_total(last, k);
            }
            let front = t.drop_last();
            assert(!front.contains(k)) by {
                if front.contains(k) {
                    let x = choose|x: int| 0 <= x < front.len() && front[x] == k;
                    assert(t[x] == k);
                }
            }
            let p = lemma_place(front, k);
            let now = t.insert(p, k);
            let before = front.insert(p, k);
            assert forall|i: int, j: int| 0 <= i < j < now.len() implies str_less(
                #[trigger] now[i],
                #[trigger] now[j],
            ) by {
                if j < now.len() - 1 {
                    assert(now[i] == before[i] && now[j] == before[j]);
                } else if i == p {
                    assert(now[i] == k && now[j] == last);
                } else {
                    let o = if i < p {
                        i
                    } else {
                        i - 1
                    };
                    assert(now[i] == t[o] && now[j] == t[t.len() - 1]);
                }
            }
            p
        }
    }
}

proof fn lemma_inserted(t: Seq<Seq<char>>, k: Seq<char>) -> (s: Seq<Seq<char>>)
    requires
        ascending(t),
        !t.contains(k),
    ensures
        ascending(s),
        forall|x: Seq<char>| #[trigger] s.contains(x) <==> t.contains(x) || x == k,
{
    let p = lemma_place(t, k);
    let s = t.insert(p, k);
    lemma_insert_contains(t, p, k);
    s
}

proof fn lemma_insert_contains(t: Seq<Seq<char>>, p: int, k: Seq<char>)
    requires
        0 <= p <= t.len(),
    ensures
        forall|x: Seq<char>| #[trigger] t.insert(p, k).contains(x) <==> t.contains(x) || x == k,
{
    let s = t.insert(p, k);
    assert forall|x: Seq<char>| #[trigger] s.contains(x) <==> t.contains(x) || x == k by {
        if s.contains(x) {
            let i = choose|i: int| 0 <= i < s.len() && s[i] == x;
            if i < p {
                assert(t[i] == x);
            } else if i > p {
                assert(t[i - 1] == x);
            }
        }
        if t.contains(x) {
            let i = choose|i: int| 0 <= i < t.len() && t[i] == x;
            if i < p {
                assert(s[i] == x);
            } else {
                assert(s[i + 1] == x);
            }
        }
        if x == k {
            assert(s[p] == x);
        }
    }
}

/// With one key more in the listing, and the member for it, the text of the
/// members is longer, but for a first part that stays as long as it is.
proof fn lemma_longer(
    members: Map<Seq<char>, JsonView>,
    key: Seq<char>,
    value: JsonView,
    keys: Seq<Seq<char>>,
    p: int,
    n: nat,
)
    requires
        members.dom().finite(),
        !members.dom().contains(key),
        !keys.contains(key),
        0 <= p <= keys.len(),
        n <= keys.len(),
    ensures
        n <= p ==> members_text(members.insert(key, value), keys.insert(p, key), n)
            == members_text(members, keys, n),
        n >= p ==> members_text(
            members.insert(key, value),
            keys.insert(p, key),
            n + 1,
        ).len() > members_text(members, keys, n).len(),
    decreases n,
{
    let more = members.insert(key, value);
    let now = keys.insert(p, key);
    assert(more.dom().finite());
    assert forall|x: Seq<char>| x != key implies #[trigger] member_text(more, x)
        == member_text(members, x) by {
        assert(more.dom().contains(x) == members.dom().contains(x));
    }
    assert(member_text(more, key).len() > 0) by {
        reveal_strlit(":");
    }
    reveal_strlit(",");
    reveal_with_fuel(members_text, 2);
    if n > 0 {
        lemma_longer(members, key, value, keys, p, (n - 1) as nat);
        assert(keys.contains(keys[n - 1]));
        assert(member_text(more, keys[n - 1]) == member_text(members, keys[n - 1]));
        if n <= p {
            assert(now[n - 1] == keys[n - 1]);
        } else {
            assert(now[n as int] == keys[n - 1]);
        }
    }
    if n == p {
        assert(now[n as int] == key);
        let first = members_text(more, now, n);
        let all = members_text(more, now, n + 1);
        if n == 0 {
            assert(all == member_text(more, key));
        } else {
            assert(all == first + ","@ + member_text(more, key));
        }
    }
}

/// A member shows: an object with one member more, and be its value null, has
/// another canonical text.
pub proof fn law_members_show(members: Map<Seq<char>, JsonView>, key: Seq<char>, value: JsonView)
    requires
        members.dom().finite(),
        !members.dom().contains(key),
    ensures
        json_text(JsonView::Object { members: members.insert(key, value) }) != json_text(
            JsonView::Object { members },
        ),
{
    let keys = lemma_listing(members.dom());
    assert(!keys.contains(key)) by {
        assert(!members.dom().contains(key));
    }
    lemma_in_order(keys, members.dom());
    let p = lemma_place(keys, key);
    let now = keys.insert(p, key);
    let more = members.insert(key, value);
    lemma_insert_contains(keys, p, key);
    assert(lists(now, more.dom())) by {
        assert forall|x: Seq<char>| #[trigger] more.dom().contains(x) <==> now.contains(x) by {
            assert(members.dom().contains(x) <==> keys.contains(x));
        }
    }
    lemma_in_order(now, more.dom());
    lemma_longer(members, key, value, keys, p, keys.len());
    assert(json_text(JsonView::Object { members: more }).len() > json_text(
        JsonView::Object { members },
    ).len());
}

// ---------------------------------------------------------------------------
// Where a text ends
// ---------------------------------------------------------------------------
proof fn lemma_same_front(a: Seq<char>, b: Seq<char>, r: Seq<char>, s: Seq<char>)
    requires
        a + r == b + s,
        a.len() == b.len(),
    ensures
        a == b,
        r == s,
{
    assert(a =~= (a + r).take(a.len() as int));
    assert(b =~= (b + s).take(b.len() as int));
    assert(r =~= (a + r).skip(a.len() as int));
    assert(s =~= (b + s).skip(b.len() as int));
}

/// What may follow the text of a value inside another.
spec fn ends(r: Seq<char>) -> bool {
    r.len() == 0 || r[0] == ',' || r[0] == ']' || r[0] == '}'
}

proof fn lemma_number_ends(a: Seq<char>, b: Seq<char>, r: Seq<char>, s: Seq<char>)
    requires
        is_number_text(a),
        is_number_text(b),
        a + r == b + s,
        ends(r),
        ends(s),
    ensures
        a == b,
        r == s,
{
    assert((a + r).len() == (b + s).len());
    if a.len() < b.len() {
        assert((a + r)[a.len() as int] == r[0]);
        assert((b + s)[a.len() as int] == b[a.len() as int]);
        assert(is_number_char(b[a.len() as int]));
    } else if b.len() < a.len() {
        assert((b + s)[b.len() as int] == s[0]);
        assert((a + r)[b.len() as int] == a[b.len() as int]);
        assert(is_number_char(a[b.len() as int]));
    }
    lemma_same_front(a, b, r, s);
}

proof fn lemma_escaped_char(c: char, d: char, r: Seq<char>, s: Seq<char>)
    requires
        escaped_char(c) + r == escaped_char(d) + s,
    ensures
        c == d,
        r == s,
{
    let x = escaped_char(c) + r;
    assert(x[0] == escaped_char(c)[0]);
    assert(x[0] == escaped_char(d)[0]);
    if x[0] == '\\' {
        assert(x[1] == escaped_char(c)[1]);
        assert(x[1] == escaped_char(d)[1]);
        if x[1] == 'u' {
            assert(x[4] == escaped_char(c)[4] && x[5] == escaped_char(c)[5]);
            assert(x[4] == escaped_char(d)[4] && x[5] == escaped_char(d)[5]);
        }
    }
    assert(c == d);
    lemma_same_front(escaped_char(c), escaped_char(d), r, s);
}

proof fn lemma_escaped_front(s: Seq<char>)
    requires
        s.len() > 0,
    ensures
        escaped(s) == escaped_char(s[0]) + escaped(s.drop_first()),
    decreases s.len(),
{
    let rest = s.drop_first();
    let front = s.drop_last();
    if s.len() > 1 {
        lemma_escaped_front(front);
        assert(front.drop_first() =~= rest.drop_last());
        assert(rest.last() == s.last());
        assert(escaped(s) =~= escaped_char(s[0]) + escaped(rest));
    } else {
        assert(escaped(front) =~= Seq::empty());
        assert(escaped(rest) =~= Seq::empty());
        assert(escaped(s) =~= escaped_char(s[0]) + escaped(rest));
    }
}

proof fn lemma_escaped_ends(s: Seq<char>, t: Seq<char>, r: Seq<char>, u: Seq<char>)
    requires
        escaped(s) + (seq!['"'] + r) == escaped(t) + (seq!['"'] + u),
    ensures
        s == t,
        r == u,
    decreases s.len(),
{
    let a = seq!['"'] + r;
    let b = seq!['"'] + u;
    let all = escaped(s) + a;
    if s.len() > 0 {
        lemma_escaped_front(s);
        assert(all =~= escaped_char(s[0]) + (escaped(s.drop_first()) + a));
        assert(all[0] == escaped_char(s[0])[0]);
    } else {
        assert(all =~= a);
    }
    if t.len() > 0 {
        lemma_escaped_front(t);
        assert(all =~= escaped_char(t[0]) + (escaped(t.drop_first()) + b));
        assert(all[0] == escaped_char(t[0])[0]);
    } else {
        assert(all =~= b);
    }
    if s.len() > 0 && t.len() > 0 {
        lemma_escaped_char(
            s[0],
            t[0],
            escaped(s.drop_first()) + a,
            escaped(t.drop_first()) + b,
        );
        lemma_escaped_ends(s.drop_first(), t.drop_first(), r, u);
        assert(s =~= seq![s[0]] + s.drop_first());
        assert(t =~= seq![t[0]] + t.drop_first());
    } else {
        assert(s =~= t);
        lemma_same_front(seq!['"'], seq!['"'], r, u);
    }
}

proof fn lemma_quoted_ends(s: Seq<char>, t: Seq<char>, r: Seq<char>, u: Seq<char>)
    requires
        quoted(s) + r == quoted(t) + u,
    ensures
        s == t,
        r == u,
{
    let a = escaped(s) + (seq!['"'] + r);
    let b = escaped(t) + (seq!['"'] + u);
    assert(quoted(s) + r =~= seq!['"'] + a);
    assert(quoted(t) + u =~= seq!['"'] + b);
    lemma_same_front(seq!['"'], seq!['"'], a, b);
    lemma_escaped_ends(s, t, r, u);
}

// ---------------------------------------------------------------------------
// From the front on
// ---------------------------------------------------------------------------
spec fn comma(i: nat) -> Seq<char> {
    if i == 0 {
        Seq::empty()
    } else {
        seq![',']
    }
}

/// The text of an array's items from the `i`-th on.
spec fn items_from(items: Seq<JsonView>, i: nat) -> Seq<char>
    decreases items.len() - i,
{
    if i >= items.len() {
        Seq::empty()
    } else {
        comma(i) + (json_text(items[i as int]) + items_from(items, i + 1))
    }
}

proof fn lemma_items_from(items: Seq<JsonView>, i: nat)
    requires
        i <= items.len(),
    ensures
        items_text(items, items.len()) == items_text(items, i) + items_from(items, i),
    decreases items.len() - i,
{
    if i == items.len() {
        assert(items_from(items, i) =~= Seq::empty());
        assert(items_text(items, i) + items_from(items, i) =~= items_text(items, i));
    } else {
        lemma_items_from(items, i + 1);
        reveal_strlit(",");
        assert(","@ =~= seq![',']);
        reveal_with_fuel(items_text, 2);
        let text = json_text(items[i as int]);
        assert(items_text(items, i + 1) =~= items_text(items, i) + comma(i) + text);
        assert(items_text(items, i + 1) + items_from(items, i + 1) =~= items_text(items, i)
            + items_from(items, i));
    }
}

/// The text of the members with the keys from the `i`-th on.
spec fn members_from(
    members: Map<Seq<char>, JsonView>,
    keys: Seq<Seq<char>>,
    i: nat,
) -> Seq<char>
    decreases keys.len() - i,
{
    if i >= keys.len() {
        Seq::empty()
    } else {
        comma(i) + (member_text(members, keys[i as int]) + members_from(members, keys, i + 1))
    }
}

proof fn lemma_members_from(members: Map<Seq<char>, JsonView>, keys: Seq<Seq<char>>, i: nat)
    requires
        i <= keys.len(),
    ensures
        members_text(members, keys, keys.len()) == members_text(members, keys, i) + members_from(
            members,
            keys,
            i,
        ),
    decreases keys.len() - i,
{
    if i == keys.len() {
        assert(members_from(members, keys, i) =~= Seq::empty());
        assert(members_text(members, keys, i) + members_from(members, keys, i) =~= members_text(
            members,
            keys,
            i,
        ));
    } else {
        lemma_members_from(members, keys, i + 1);
        reveal_strlit(",");
        assert(","@ =~= seq![',']);
        reveal_with_fuel(members_text, 2);
        let text = member_text(members, keys[i as int]);
        assert(members_text(members, keys, i + 1) =~= members_text(members, keys, i) + comma(i)
            + text);
        assert(members_text(members, keys, i + 1) + members_from(members, keys, i + 1)
            =~= members_text(members, keys, i) + members_from(members, keys, i));
    }
}

// ---------------------------------------------------------------------------
// Values with one text
// ---------------------------------------------------------------------------
/// Two values agree, as far as their texts tell: they are of one kind and,
/// as strings, equal; as numbers, taken for floats with one text; as arrays,
/// with items of the same texts in the same order; as objects, with the same
/// keys and members of the same texts.
pub open spec fn alike(v: JsonView, w: JsonView) -> bool {
    match (v, w) {
        (JsonView::Null, JsonView::Null) => true,
        (JsonView::Bool { value: a }, JsonView::Bool { value: b }) => a == b,
        (JsonView::Number { number: a }, JsonView::Number { number: b }) => number_text(a)
            == number_text(b),
        (JsonView::Text { chars: a }, JsonView::Text { chars: b }) => a == b,
        (JsonView::Array { items: a }, JsonView::Array { items: b }) => same_items(a, b),
        (JsonView::Object { members: a }, JsonView::Object { members: b }) => same_members(a, b),
        _ => false,
    }
}

/// As many items, and each of one text with that in its place.
pub open spec fn same_items(a: Seq<JsonView>, b: Seq<JsonView>) -> bool {
    a.len() == b.len() && forall|i: int|
        0 <= i < a.len() ==> json_text(#[trigger] a[i]) == json_text(#[trigger] b[i])
}

/// The same keys, and each member of one text with that of its key.
pub open spec fn same_members(
    a: Map<Seq<char>, JsonView>,
    b: Map<Seq<char>, JsonView>,
) -> bool {
    a.dom() == b.dom() && forall|k: Seq<char>| #[trigger]
        a.dom().contains(k) ==> json_text(a[k]) == json_text(b[k])
}

/// What the first character of a text is.
spec fn starts(v: JsonView, c: char) -> bool {
    match v {
        JsonView::Null => c == 'n',
        JsonView::Bool { value } => c == if value {
            't'
        } else {
            'f'
        },
        JsonView::Number { .. } => is_number_char(c),
        JsonView::Text { .. } => c == '"',
        JsonView::Array { .. } => c == '[',
        JsonView::Object { .. } => c == '{',
    }
}

proof fn lemma_starts(v: JsonView)
    requires
        readable(v),
    ensures
        json_text(v).len() > 0,
        starts(v, json_text(v)[0]),
{
    reveal_strlit("null");
    reveal_strlit("true");
    reveal_strlit("false");
    reveal_strlit("[");
    reveal_strlit("{");
    match v {
        JsonView::Number { number } => {
            assert(is_number_text(number_text(number)));
        },
        JsonView::Text { chars } => {
            assert(quoted(chars)[0] == '"');
        },
        _ => {},
    }
}

proof fn lemma_item_readable(items: Seq<JsonView>, i: int)
    requires
        readable(JsonView::Array { items }),
        0 <= i < items.len(),
    ensures
        readable(items[i]),
{
    reveal_with_fuel(readable, 2);
    let v = JsonView::Array { items };
    assert(v is Array && v->items == items);
}

proof fn lemma_member_readable(members: Map<Seq<char>, JsonView>, k: Seq<char>)
    requires
        readable(JsonView::Object { members }),
        members.dom().contains(k),
    ensures
        members.dom().finite(),
        readable(members[k]),
{
    reveal_with_fuel(readable, 2);
    let v = JsonView::Object { members };
    assert(v is Object && v->members == members);
}

/// A text that goes on in a known way is told from what follows, and tells
/// what its value is.
#[verifier::spinoff_prover]
proof fn lemma_text_ends(v: JsonView, w: JsonView, r: Seq<char>, s: Seq<char>)
    requires
        readable(v),
        readable(w),
        ends(r),
        ends(s),
        json_text(v) + r == json_text(w) + s,
    ensures
        alike(v, w),
        json_text(v) == json_text(w),
        r == s,
    decreases v, 0nat,
{
    lemma_starts(v);
    lemma_starts(w);
    let all = json_text(v) + r;
    assert(all[0] == json_text(v)[0]);
    assert(all[0] == json_text(w)[0]);
    match (v, w) {
        (JsonView::Number { number: a }, JsonView::Number { number: b }) => {
            lemma_number_ends(number_text(a), number_text(b), r, s);
        },
        (JsonView::Text { chars: a }, JsonView::Text { chars: b }) => {
            lemma_quoted_ends(a, b, r, s);
        },
        (JsonView::Array { items: a }, JsonView::Array { items: b }) => {
            lemma_array_text(a);
            lemma_array_text(b);
            let x = items_from(a, 0) + (seq![']'] + r);
            let y = items_from(b, 0) + (seq![']'] + s);
            assert(all =~= seq!['['] + x);
            assert(all =~= seq!['['] + y);
            lemma_same_front(seq!['['], seq!['['], x, y);
            assert forall|i: int| 0 <= i < a.len() implies readable(#[trigger] a[i]) by {
                lemma_item_readable(a, i);
            }
            assert forall|i: int| 0 <= i < b.len() implies readable(#[trigger] b[i]) by {
                lemma_item_readable(b, i);
            }
            lemma_items_end(a, b, 0, r, s);
            assert(same_items(a, b));
            assert(all.len() == json_text(w).len() + s.len());
            lemma_same_front(json_text(v), json_text(w), r, s);
        },
        (JsonView::Object { members: a }, JsonView::Object { members: b }) => {
            assert(a.dom().finite() && b.dom().finite()) by {
                reveal_with_fuel(readable, 2);
            }
            let kk = lemma_listing(a.dom());
            let ll = lemma_listing(b.dom());
            lemma_object_text(a, kk);
            lemma_object_text(b, ll);
            let x = members_from(a, kk, 0) + (seq!['}'] + r);
            let y = members_from(b, ll, 0) + (seq!['}'] + s);
            assert(all =~= seq!['{'] + x);
            assert(all =~= seq!['{'] + y);
            lemma_same_front(seq!['{'], seq!['{'], x, y);
            assert forall|k: Seq<char>| #[trigger] a.dom().contains(k) implies readable(a[k]) by {
                lemma_member_readable(a, k);
            }
            assert forall|k: Seq<char>| #[trigger] b.dom().contains(k) implies readable(b[k]) by {
                lemma_member_readable(b, k);
            }
            lemma_members_end(a, b, kk, ll, 0, r, s);
            assert(kk =~= ll);
            assert forall|k: Seq<char>| a.dom().contains(k) <==> b.dom().contains(k) by {
                assert(a.dom().contains(k) <==> kk.contains(k));
                assert(b.dom().contains(k) <==> ll.contains(k));
            }
            assert(a.dom() =~= b.dom());
            assert forall|k: Seq<char>| #[trigger] a.dom().contains(k) implies json_text(a[k])
                == json_text(b[k]) by {
                assert(kk.contains(k));
                let i = choose|i: int| 0 <= i < kk.len() && kk[i] == k;
                assert(json_text(a[kk[i]]) == json_text(b[kk[i]]));
            }
            assert(all.len() == json_text(w).len() + s.len());
            lemma_same_front(json_text(v), json_text(w), r, s);
        },
        _ => {
            lemma_same_front(json_text(v), json_text(w), r, s);
        },
    }
}

proof fn lemma_array_text(items: Seq<JsonView>)
    ensures
        json_text(JsonView::Array { items }) == seq!['['] + items_from(items, 0) + seq![']'],
{
    reveal_strlit("[");
    reveal_strlit("]");
    assert("["@ =~= seq!['[']);
    assert("]"@ =~= seq![']']);
    lemma_items_from(items, 0);
    assert(items_text(items, items.len()) =~= items_from(items, 0));
    let v = JsonView::Array { items };
    assert(v is Array && v->items == items);
}

proof fn lemma_object_text(members: Map<Seq<char>, JsonView>, keys: Seq<Seq<char>>)
    requires
        lists(keys, members.dom()),
    ensures
        json_text(JsonView::Object { members }) == seq!['{'] + members_from(members, keys, 0)
            + seq!['}'],
{
    reveal_strlit("{");
    reveal_strlit("}");
    assert("{"@ =~= seq!['{']);
    assert("}"@ =~= seq!['}']);
    lemma_in_order(keys, members.dom());
    lemma_members_from(members, keys, 0);
    assert(members_text(members, keys, keys.len()) =~= members_from(members, keys, 0));
    let v = JsonView::Object { members };
    assert(v is Object && v->members == members);
}

/// The items of two arrays from the `i`-th on, where their texts go on alike.
#[verifier::spinoff_prover]
proof fn lemma_items_end(
    a: Seq<JsonView>,
    b: Seq<JsonView>,
    i: nat,
    r: Seq<char>,
    s: Seq<char>,
)
    requires
        i <= a.len(),
        i <= b.len(),
        forall|j: int| 0 <= j < a.len() ==> readable(#[trigger] a[j]),
        forall|j: int| 0 <= j < b.len() ==> readable(#[trigger] b[j]),
        items_from(a, i) + (seq![']'] + r) == items_from(b, i) + (seq![']'] + s),
    ensures
        a.len() == b.len(),
        forall|j: int|
            i <= j < a.len() ==> json_text(#[trigger] a[j]) == json_text(#[trigger] b[j]),
        r == s,
    decreases a, a.len() - i,
{
    let x = seq![']'] + r;
    let y = seq![']'] + s;
    let all = items_from(a, i) + x;
    if i < a.len() {
        lemma_starts(a[i as int]);
        let text = json_text(a[i as int]);
        assert(all =~= comma(i) + (text + (items_from(a, i + 1) + x)));
        assert(all[0] == if i == 0 { text[0] } else { ',' });
    } else {
        assert(all =~= x);
    }
    if i < b.len() {
        lemma_starts(b[i as int]);
        let text = json_text(b[i as int]);
        assert(all =~= comma(i) + (text + (items_from(b, i + 1) + y)));
        assert(all[0] == if i == 0 { text[0] } else { ',' });
    } else {
        assert(all =~= y);
    }
    if i < a.len() && i < b.len() {
        let p = items_from(a, i + 1) + x;
        let q = items_from(b, i + 1) + y;
        lemma_same_front(
            comma(i),
            comma(i),
            json_text(a[i as int]) + p,
            json_text(b[i as int]) + q,
        );
        assert(ends(p)) by {
            if i + 1 >= a.len() {
                assert(p =~= x);
            }
        }
        assert(ends(q)) by {
            if i + 1 >= b.len() {
                assert(q =~= y);
            }
        }
        lemma_text_ends(a[i as int], b[i as int], p, q);
        lemma_items_end(a, b, i + 1, r, s);
    } else {
        lemma_same_front(seq![']'], seq![']'], r, s);
    }
}

/// The member with the `i`-th key, and what follows it.
proof fn lemma_member_from(
    members: Map<Seq<char>, JsonView>,
    keys: Seq<Seq<char>>,
    i: nat,
    x: Seq<char>,
)
    requires
        i < keys.len(),
        members.dom().finite(),
        lists(keys, members.dom()),
    ensures
        members.dom().contains(keys[i as int]),
        members_from(members, keys, i) + x == comma(i) + (quoted(keys[i as int]) + (seq![':'] + (
        json_text(members[keys[i as int]]) + (members_from(members, keys, i + 1) + x)))),
        (members_from(members, keys, i) + x).len() > 0,
        (members_from(members, keys, i) + x)[0] == '"' || (members_from(members, keys, i) + x)[0]
            == ',',
{
    let k = keys[i as int];
    assert(keys.contains(k));
    reveal_strlit(":");
    assert(":"@ =~= seq![':']);
    let text = json_text(members[k]);
    let rest = members_from(members, keys, i + 1);
    assert(member_text(members, k) == quoted(k) + seq![':'] + text);
    let all = members_from(members, keys, i) + x;
    assert(all =~= comma(i) + (quoted(k) + (seq![':'] + (text + (rest + x)))));
}

proof fn lemma_members_rest(
    members: Map<Seq<char>, JsonView>,
    keys: Seq<Seq<char>>,
    i: nat,
    r: Seq<char>,
)
    requires
        i > 0,
    ensures
        ends(members_from(members, keys, i) + (seq!['}'] + r)),
{
    if i >= keys.len() {
        assert(members_from(members, keys, i) + (seq!['}'] + r) =~= seq!['}'] + r);
    }
}

/// The members of two objects from the `i`-th keys on, where their texts go on
/// alike.
#[verifier::spinoff_prover]
proof fn lemma_members_end(
    a: Map<Seq<char>, JsonView>,
    b: Map<Seq<char>, JsonView>,
    kk: Seq<Seq<char>>,
    ll: Seq<Seq<char>>,
    i: nat,
    r: Seq<char>,
    s: Seq<char>,
)
    requires
        i <= kk.len(),
        i <= ll.len(),
        a.dom().finite(),
        b.dom().finite(),
        lists(kk, a.dom()),
        lists(ll, b.dom()),
        forall|k: Seq<char>| #[trigger] a.dom().contains(k) ==> readable(a[k]),
        forall|k: Seq<char>| #[trigger] b.dom().contains(k) ==> readable(b[k]),
        members_from(a, kk, i) + (seq!['}'] + r) == members_from(b, ll, i) + (seq!['}'] + s),
    ensures
        kk.len() == ll.len(),
        forall|j: int|
            i <= j < kk.len() ==> #[trigger] kk[j] == #[trigger] ll[j] && json_text(a[kk[j]])
                == json_text(b[kk[j]]),
        r == s,
    decreases a, kk.len() - i,
{
    let x = seq!['}'] + r;
    let y = seq!['}'] + s;
    let all = members_from(a, kk, i) + x;
    if i < kk.len() {
        lemma_member_from(a, kk, i, x);
    } else {
        assert(all =~= x);
    }
    if i < ll.len() {
        lemma_member_from(b, ll, i, y);
    } else {
        assert(all =~= y);
    }
    if i < kk.len() && i < ll.len() {
        let k = kk[i as int];
        let l = ll[i as int];
        let p = members_from(a, kk, i + 1) + x;
        let q = members_from(b, ll, i + 1) + y;
        let u = json_text(a[k]) + p;
        let v = json_text(b[l]) + q;
        lemma_same_front(
            comma(i),
            comma(i),
            quoted(k) + (seq![':'] + u),
            quoted(l) + (seq![':'] + v),
        );
        lemma_quoted_ends(k, l, seq![':'] + u, seq![':'] + v);
        lemma_same_front(seq![':'], seq![':'], u, v);
        lemma_members_rest(a, kk, i + 1, r);
        lemma_members_rest(b, ll, i + 1, s);
        lemma_text_ends(a[k], b[l], p, q);
        lemma_members_end(a, b, kk, ll, i + 1, r, s);
    } else {
        lemma_same_front(seq!['}'], seq!['}'], r, s);
    }
}

proof fn lemma_items_agree(a: Seq<JsonView>, b: Seq<JsonView>, n: nat)
    requires
        same_items(a, b),
    ensures
        items_text(a, n) == items_text(b, n),
    decreases n,
{
    if 0 < n <= a.len() {
        lemma_items_agree(a, b, (n - 1) as nat);
        assert(json_text(a[n - 1]) == json_text(b[n - 1]));
    }
}

proof fn lemma_members_agree(
    a: Map<Seq<char>, JsonView>,
    b: Map<Seq<char>, JsonView>,
    keys: Seq<Seq<char>>,
    n: nat,
)
    requires
        same_members(a, b),
    ensures
        members_text(a, keys, n) == members_text(b, keys, n),
    decreases n,
{
    if 0 < n <= keys.len() {
        lemma_members_agree(a, b, keys, (n - 1) as nat);
        let k = keys[n - 1];
        assert(a.dom().contains(k) == b.dom().contains(k));
        assert(member_text(a, k) == member_text(b, k));
    }
}

proof fn lemma_alike(v: JsonView, w: JsonView)
    requires
        alike(v, w),
    ensures
        json_text(v) == json_text(w),
{
    match (v, w) {
        (JsonView::Array { items: a }, JsonView::Array { items: b }) => {
            lemma_items_agree(a, b, a.len());
        },
        (JsonView::Object { members: a }, JsonView::Object { members: b }) => {
            let keys = in_order(a.dom());
            lemma_members_agree(a, b, keys, keys.len());
        },
        _ => {},
    }
}

/// The canonical text tells all that it should and no more: two values have
/// one text exactly if they are of one kind and agree as strings, as numbers
/// taken for floats, item by item in order, or member by member.
pub proof fn law_texts_tell_values(v: JsonView, w: JsonView)
    requires
        readable(v),
        readable(w),
    ensures
        json_text(v) == json_text(w) <==> alike(v, w),
{
    if json_text(v) == json_text(w) {
        let none = Seq::<char>::empty();
        lemma_text_ends(v, w, none, none);
    }
    if alike(v, w) {
        lemma_alike(v, w);
    }
}

/// The order of an array's items shows: with two items of different texts in
/// each other's place, the array has another canonical text.
pub proof fn law_item_order_shows(items: Seq<JsonView>, i: int, j: int)
    requires
        readable(JsonView::Array { items }),
        0 <= i < items.len(),
        0 <= j < items.len(),
        json_text(items[i]) != json_text(items[j]),
    ensures
        json_text(
            JsonView::Array { items: items.update(i, items[j]).update(j, items[i]) },
        ) != json_text(JsonView::Array { items }),
{
    let swapped = items.update(i, items[j]).update(j, items[i]);
    let v = JsonView::Array { items };
    let w = JsonView::Array { items: swapped };
    assert forall|k: int| 0 <= k < swapped.len() implies readable(#[trigger] swapped[k]) by {
        lemma_item_readable(items, if k == i { j } else if k == j { i } else { k });
    }
    lemma_readable_items(swapped);
    law_texts_tell_values(v, w);
    if alike(v, w) {
        assert(same_items(items, swapped));
        assert(json_text(items[i]) == json_text(swapped[i]));
    }
}

/// A value with every number in it, however deep, as the float that it is
/// taken for.
pub open spec fn with_floats(v: JsonView) -> JsonView
    decreases v,
{
    match v {
        JsonView::Number { number } => JsonView::Number { number: as_float(number) },
        JsonView::Array { items } => JsonView::Array {
            items: Seq::new(
                items.len(),
                |i: int|
                    if 0 <= i < items.len() {
                        with_floats(items[i])
                    } else {
                        JsonView::Null
                    },
            ),
        },
        JsonView::Object { members } => JsonView::Object {
            members: Map::new(
                |k: Seq<char>| members.dom().contains(k),
                |k: Seq<char>|
                    if members.dom().finite() && members.dom().contains(k) {
                        with_floats(members[k])
                    } else {
                        members[k]
                    },
            ),
        },
        _ => v,
    }
}

/// Integers and the floats they are taken for are not told apart, wherever in
/// a value they stand: `1` and `1.0` have one canonical text, and so have any
/// two values that differ only in such numbers.
pub proof fn law_numbers_inside_share_their_text(v: JsonView)
    ensures
        json_text(with_floats(v)) == json_text(v),
    decreases v,
{
    let w = with_floats(v);
    match v {
        JsonView::Array { items } => {
            let others = w->items;
            assert forall|i: int| 0 <= i < items.len() implies json_text(#[trigger] items[i])
                == json_text(#[trigger] others[i]) by {
                law_numbers_inside_share_their_text(items[i]);
            }
            lemma_alike(v, w);
        },
        JsonView::Object { members } => {
            let others = w->members;
            assert(members.dom() =~= others.dom());
            assert forall|k: Seq<char>| #[trigger] members.dom().contains(k) implies json_text(
                members[k],
            ) == json_text(others[k]) by {
                if members.dom().finite() {
                    law_numbers_inside_share_their_text(members[k]);
                }
            }
            lemma_alike(v, w);
        },
        _ => {},
    }
}

} // verus!

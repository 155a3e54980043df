//! Canonical JSON, and fingerprints of it.

use crate::json::{
    all_finite, hex_digit, json_text, json_view, members_view, readable, write_json, Json, JsonView,
};
use sha2::{Digest, Sha256};
use vstd::prelude::*;
use vstd::utf8::encode_utf8;

verus! {

/// The canonical text of a value: no space, the members of each object in
/// ascending order of their keys, and every number as a float, so that `1` and
/// `1.0` have one text.
pub fn to_canonical_json(v: &Json) -> (r: String)
    requires
        all_finite(v@),
    ensures
        r@ == json_text(v@),
        readable(v@),
{
    write_json(v)
}

/// The SHA-256 digest of a byte string.
pub uninterp spec fn sha256(data: Seq<u8>) -> Seq<u8>;

/// `Sha256` of `sha2`, fed with all the data: its digest depends on the data
/// alone, and has 32 bytes.
#[verifier::external_body]
fn sha256_digest(data: &[u8]) -> (r: Vec<u8>)
    ensures
        r@ == sha256(data@),
        r@.len() == 32,
{
    let mut hasher = Sha256::new();
    hasher.update(data);
    hasher.finalize().to_vec()
}

/// The bytes in hexadecimal: two lower-case digits each.
pub open spec fn hex_text(data: Seq<u8>) -> Seq<char>
    decreases data.len(),
{
    if data.len() == 0 {
        Seq::empty()
    } else {
        hex_text(data.drop_last()) + seq![
            hex_digit(data.last() as int / 16),
            hex_digit(data.last() as int % 16),
        ]
    }
}

/// `hex::encode`: two lower-case hexadecimal digits for each byte.
#[verifier::external_body]
fn hex_encode(data: &[u8]) -> (r: String)
    ensures
        r@ == hex_text(data@),
{
    hex::encode(data)
}

/// The text of a digest.
pub fn digest_hex(digest: &[u8]) -> (r: String)
    ensures
        r@ == hex_text(digest@),
{
    hex_encode(digest)
}

/// The fingerprint of a value: the SHA-256 digest of its canonical text, in
/// hexadecimal.
pub fn fingerprint_sha256_hex(v: &Json) -> (r: String)
    requires
        all_finite(v@),
    ensures
        r@ == hex_text(sha256(encode_utf8(json_text(v@)))),
        r@.len() == 64,
{
    let json = to_canonical_json(v);
    let digest = sha256_digest(json.as_str().as_bytes());
    proof {
        lemma_hex_len(digest@);
    }
    digest_hex(digest.as_slice())
}

proof fn lemma_hex_len(data: Seq<u8>)
    ensures
        hex_text(data).len() == 2 * data.len(),
    decreases data.len(),
{
    if data.len() > 0 {
        lemma_hex_len(data.drop_last());
    }
}

// ---------------------------------------------------------------------------
// Laws
// ---------------------------------------------------------------------------
/// No key occurs twice among the members.
pub open spec fn distinct_keys(s: Seq<(String, Json)>) -> bool {
    forall|i: int, j: int| 0 <= i < j < s.len() ==> (#[trigger] s[i]).0@ != (#[trigger] s[j]).0@
}

/// Every member of `s` is one of `t`.
pub open spec fn members_among(s: Seq<(String, Json)>, t: Seq<(String, Json)>) -> bool {
    forall|i: int|
        0 <= i < s.len() ==> exists|j: int|
            0 <= j < t.len() && (#[trigger] t[j]).0@ == (#[trigger] s[i]).0@ && json_view(t[j].1)
                == json_view(s[i].1)
}

proof fn lemma_members_of(s: Seq<(String, Json)>, n: nat, k: Seq<char>)
    requires
        n <= s.len(),
    ensures
        members_view(s, n).dom().contains(k) <==> exists|i: int|
            0 <= i < n && (#[trigger] s[i]).0@ == k,
        members_view(s, n).dom().contains(k) && distinct_keys(s) ==> exists|i: int|
            0 <= i < n && (#[trigger] s[i]).0@ == k && members_view(s, n)[k] == json_view(s[i].1),
    decreases n,
{
    if n > 0 {
        lemma_members_of(s, (n - 1) as nat, k);
        if s[n - 1].0@ == k {
            assert(members_view(s, n)[k] == json_view(s[n - 1].1));
        }
    }
}

spec fn agree_at(m: Map<Seq<char>, JsonView>, n: Map<Seq<char>, JsonView>, k: Seq<char>) -> bool {
    m.dom().contains(k) == n.dom().contains(k) && (m.dom().contains(k) ==> m[k] == n[k])
}

proof fn lemma_agree(s: Seq<(String, Json)>, t: Seq<(String, Json)>, k: Seq<char>)
    requires
        distinct_keys(s),
        distinct_keys(t),
        members_among(s, t),
        members_among(t, s),
    ensures
        agree_at(members_view(s, s.len()), members_view(t, t.len()), k),
{
    let m = members_view(s, s.len());
    let n = members_view(t, t.len());
    lemma_members_of(s, s.len(), k);
    lemma_members_of(t, t.len(), k);
    if m.dom().contains(k) {
        let i = choose|i: int|
            0 <= i < s.len() && (#[trigger] s[i]).0@ == k && m[k] == json_view(s[i].1);
        let j = choose|j: int|
            0 <= j < t.len() && (#[trigger] t[j]).0@ == s[i].0@ && json_view(t[j].1) == json_view(
                s[i].1,
            );
        assert(t[j].0@ == k);
        assert(n.dom().contains(k));
        let x = choose|x: int|
            0 <= x < t.len() && (#[trigger] t[x]).0@ == k && n[k] == json_view(t[x].1);
        assert(x == j);
    }
    if n.dom().contains(k) {
        let i = choose|i: int| 0 <= i < t.len() && (#[trigger] t[i]).0@ == k;
        let j = choose|j: int|
            0 <= j < s.len() && (#[trigger] s[j]).0@ == t[i].0@ && json_view(s[j].1) == json_view(
                t[i].1,
            );
        assert(s[j].0@ == k);
    }
}

/// Objects with the same members, in whatever order, are one value: they have
/// one canonical text and one fingerprint.
pub proof fn law_member_order_does_not_matter(v: Vec<(String, Json)>, w: Vec<(String, Json)>)
    requires
        distinct_keys(v@),
        distinct_keys(w@),
        members_among(v@, w@),
        members_among(w@, v@),
    ensures
        json_view(Json::Object(v)) == json_view(Json::Object(w)),
        json_text(json_view(Json::Object(v))) == json_text(json_view(Json::Object(w))),
        sha256(encode_utf8(json_text(json_view(Json::Object(v))))) == sha256(
            encode_utf8(json_text(json_view(Json::Object(w)))),
        ),
{
    let m = members_view(v@, v@.len());
    let n = members_view(w@, w@.len());
    assert forall|k: Seq<char>| agree_at(m, n, k) by {
        lemma_agree(v@, w@, k);
    }
    assert forall|k: Seq<char>| m.dom().contains(k) == n.dom().contains(k) by {
        assert(agree_at(m, n, k));
    }
    assert forall|k: Seq<char>| m.dom().contains(k) implies m[k] == n[k] by {
        assert(agree_at(m, n, k));
    }
    assert(m =~= n);
}

} // verus!

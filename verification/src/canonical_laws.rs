//! What canonical texts, fingerprints and signatures come to, by characters
//! and positions.

use crate::fingerprint::{fingerprint_sha256_hex, hex_text, sha256, to_canonical_json};
use crate::json::{
    ascending, escaped, float_of_i64, float_of_u64, float_text, items_text, json_text,
    lemma_in_order, lemma_items_view, lemma_members_at, lemma_members_dom, lists, member_text,
    members_text, Json, JsonNumber, JsonView,
};
use crate::signature::{
    base64_decoded, canonical_bytes_from_value, is_public_key, judge, judge_signature,
    manifest_verdict, signs, verify_manifest_signature, InMemoryTrustStore, ManifestError,
    SharedTrustStore, SignatureError, TrustStore, TrustStores,
};
use crate::text::str_less;
use crate::text_laws::{before_at, law_str_less_by_positions};
use vstd::prelude::*;
use vstd::utf8::encode_utf8;

verus! {

// ---------------------------------------------------------------------------
// Values
// ---------------------------------------------------------------------------
/// An array has its items, in their order.
pub proof fn law_arrays_have_their_items(v: Vec<Json>, i: int)
    requires
        0 <= i < v@.len(),
    ensures
        Json::Array(v)@ is Array,
        Json::Array(v)@->items.len() == v@.len(),
        Json::Array(v)@->items[i] == v@[i]@,
{
    lemma_items_view(v@, v@.len());
}

/// An object has the keys of its members and no other, and for each the value
/// of the last member with it.
pub proof fn law_last_members_count(v: Vec<(String, Json)>, i: int, key: Seq<char>)
    requires
        0 <= i < v@.len(),
        forall|j: int| i < j < v@.len() ==> (#[trigger] v@[j]).0@ != v@[i].0@,
    ensures
        Json::Object(v)@ is Object,
        Json::Object(v)@->members.dom().contains(v@[i].0@),
        Json::Object(v)@->members[v@[i].0@] == v@[i].1@,
        Json::Object(v)@->members.dom().contains(key) <==> exists|j: int|
            0 <= j < v@.len() && (#[trigger] v@[j]).0@ == key,
{
    lemma_members_at(v@, v@.len(), i);
    lemma_members_dom(v@, v@.len(), key);
}

/// The other values are what they hold.
pub proof fn law_plain_values(b: bool, n: JsonNumber, s: String)
    ensures
        Json::Null@ is Null,
        Json::Bool(b)@ == (JsonView::Bool { value: b }),
        Json::Number(n)@ == (JsonView::Number { number: n }),
        Json::String(s)@ == (JsonView::Text { chars: s@ }),
{
}

// ---------------------------------------------------------------------------
// Texts
// ---------------------------------------------------------------------------
/// Texts one after the other, with commas between them.
pub open spec fn joined(parts: Seq<Seq<char>>) -> Seq<char>
    decreases parts.len(),
{
    if parts.len() == 0 {
        Seq::empty()
    } else if parts.len() == 1 {
        parts[0]
    } else {
        parts[0] + seq![','] + joined(parts.drop_first())
    }
}

proof fn lemma_joined_push(parts: Seq<Seq<char>>, x: Seq<char>)
    ensures
        parts.len() == 0 ==> joined(parts.push(x)) == x,
        parts.len() > 0 ==> joined(parts.push(x)) == joined(parts) + seq![','] + x,
    decreases parts.len(),
{
    if parts.len() == 1 {
        assert(parts.push(x).drop_first() =~= seq![x]);
        assert(joined(seq![x]) == x);
    } else if parts.len() > 1 {
        lemma_joined_push(parts.drop_first(), x);
        assert(parts.push(x).drop_first() =~= parts.drop_first().push(x));
        assert(joined(parts.push(x)) =~= joined(parts) + seq![','] + x);
    }
}

proof fn lemma_items_joined(items: Seq<JsonView>, n: nat)
    requires
        n <= items.len(),
    ensures
        items_text(items, n) == joined(Seq::new(n, |i: int| json_text(items[i]))),
    decreases n,
{
    if n > 0 {
        let less = (n - 1) as nat;
        lemma_items_joined(items, less);
        let parts = Seq::new(less, |i: int| json_text(items[i]));
        lemma_joined_push(parts, json_text(items[n - 1]));
        assert(Seq::new(n, |i: int| json_text(items[i])) =~= parts.push(json_text(items[n - 1])));
        reveal_strlit(",");
        assert(","@ =~= seq![',']);
    }
}

/// A member of an object in its text: its key as a string, a colon, and its
/// value.
pub open spec fn member_part(members: Map<Seq<char>, JsonView>, key: Seq<char>) -> Seq<char> {
    json_text(JsonView::Text { chars: key }) + seq![':'] + json_text(members[key])
}

proof fn lemma_members_joined(members: Map<Seq<char>, JsonView>, keys: Seq<Seq<char>>, n: nat)
    requires
        n <= keys.len(),
        members.dom().finite(),
        forall|i: int| 0 <= i < keys.len() ==> members.dom().contains(#[trigger] keys[i]),
    ensures
        members_text(members, keys, n) == joined(
            Seq::new(n, |i: int| member_part(members, keys[i])),
        ),
    decreases n,
{
    if n > 0 {
        let less = (n - 1) as nat;
        lemma_members_joined(members, keys, less);
        let parts = Seq::new(less, |i: int| member_part(members, keys[i]));
        let key = keys[n - 1];
        lemma_joined_push(parts, member_part(members, key));
        assert(Seq::new(n, |i: int| member_part(members, keys[i])) =~= parts.push(
            member_part(members, key),
        ));
        reveal_strlit(",");
        assert(","@ =~= seq![',']);
        reveal_strlit(":");
        assert(":"@ =~= seq![':']);
        assert(members.dom().contains(key));
        assert(member_text(members, key) == member_part(members, key));
    }
}

/// The text of an array is that of its items, in their order, with commas
/// between them, in square brackets.
pub proof fn law_array_texts(v: &Json, items: Seq<JsonView>, r: String)
    requires
        call_ensures(to_canonical_json, (v,), r),
        v@ == (JsonView::Array { items }),
    ensures
        r@ == seq!['['] + joined(Seq::new(items.len(), |i: int| json_text(items[i]))) + seq![']'],
{
    lemma_items_joined(items, items.len());
    reveal_strlit("[");
    reveal_strlit("]");
    assert("["@ =~= seq!['[']);
    assert("]"@ =~= seq![']']);
}

/// Keys in the order of their UTF-8 bytes, none twice: of each two, the bytes
/// agree up to a position at which the earlier ends or has the smaller byte.
pub open spec fn by_bytes(keys: Seq<Seq<char>>) -> bool {
    forall|i: int, j: int|
        0 <= i < j < keys.len() ==> exists|p: int| #[trigger]
            before_at(encode_utf8(#[trigger] keys[i]), encode_utf8(#[trigger] keys[j]), p)
}

/// The text of an object is that of its members in the order of the bytes of
/// their keys, with commas between them, in curly brackets.
pub proof fn law_object_texts(
    v: &Json,
    members: Map<Seq<char>, JsonView>,
    keys: Seq<Seq<char>>,
    r: String,
)
    requires
        call_ensures(to_canonical_json, (v,), r),
        v@ == (JsonView::Object { members }),
        by_bytes(keys),
        forall|k: Seq<char>| members.dom().contains(k) <==> keys.contains(k),
    ensures
        r@ == seq!['{'] + joined(
            Seq::new(keys.len(), |i: int| member_part(members, keys[i])),
        ) + seq!['}'],
{
    assert forall|i: int, j: int| 0 <= i < j < keys.len() implies str_less(
        #[trigger] keys[i],
        #[trigger] keys[j],
    ) by {
        law_str_less_by_positions(keys[i], keys[j]);
    }
    assert(ascending(keys));
    assert(lists(keys, members.dom()));
    lemma_in_order(keys, members.dom());
    assert(members.dom() =~= keys.to_set());
    vstd::seq_lib::seq_to_set_is_finite(keys);
    assert forall|i: int| 0 <= i < keys.len() implies members.dom().contains(
        #[trigger] keys[i],
    ) by {
        assert(keys.contains(keys[i]));
    }
    lemma_members_joined(members, keys, keys.len());
    reveal_strlit("{");
    reveal_strlit("}");
    assert("{"@ =~= seq!['{']);
    assert("}"@ =~= seq!['}']);
}

/// The texts of the values that have no parts: the words of JSON, and for a
/// number that of the float that it is or that is nearest to it.
pub proof fn law_plain_texts(v: &Json, r: String)
    requires
        call_ensures(to_canonical_json, (v,), r),
    ensures
        v@ is Null ==> r@ == seq!['n', 'u', 'l', 'l'],
        v@ == (JsonView::Bool { value: true }) ==> r@ == seq!['t', 'r', 'u', 'e'],
        v@ == (JsonView::Bool { value: false }) ==> r@ == seq!['f', 'a', 'l', 's', 'e'],
        v@ is Number ==> r@ == match v@->number {
            JsonNumber::PosInt(u) => float_text(float_of_u64(u)),
            JsonNumber::NegInt(i) => float_text(float_of_i64(i)),
            JsonNumber::Float(f) => float_text(f.bits),
        },
{
    reveal_strlit("null");
    reveal_strlit("true");
    reveal_strlit("false");
    assert("null"@ =~= seq!['n', 'u', 'l', 'l']);
    assert("true"@ =~= seq!['t', 'r', 'u', 'e']);
    assert("false"@ =~= seq!['f', 'a', 'l', 's', 'e']);
}

proof fn lemma_escaped_joins(s: Seq<char>, t: Seq<char>)
    ensures
        escaped(s + t) == escaped(s) + escaped(t),
    decreases t.len(),
{
    if t.len() == 0 {
        assert(s + t =~= s);
        assert(escaped(s) + escaped(t) =~= escaped(s));
    } else {
        lemma_escaped_joins(s, t.drop_last());
        assert((s + t).drop_last() =~= s + t.drop_last());
        assert(escaped(s + t) =~= escaped(s) + escaped(t));
    }
}

/// The text of a string is in quotes, and what stands between them for two
/// strings in a row is what stands there for the one and then for the other.
pub proof fn law_strings_are_in_quotes(s: Seq<char>, t: Seq<char>)
    ensures
        ({
            let text = |x: Seq<char>| json_text(JsonView::Text { chars: x });
            &&& text(s).len() >= 2
            &&& text(s).first() == '"'
            &&& text(s).last() == '"'
            &&& text(Seq::empty()) == seq!['"', '"']
            &&& text(s + t) == text(s).drop_last() + text(t).drop_first()
        }),
{
    lemma_escaped_joins(s, t);
    let text = |x: Seq<char>| json_text(JsonView::Text { chars: x });
    assert(text(s).drop_last() =~= seq!['"'] + escaped(s));
    assert(text(t).drop_first() =~= escaped(t) + seq!['"']);
    assert(text(s + t) =~= text(s).drop_last() + text(t).drop_first());
    assert(text(Seq::empty()) =~= seq!['"', '"']);
}

/// The number that a lower-case hexadecimal digit stands for.
pub open spec fn hex_value(c: char) -> int {
    if '0' <= c && c <= '9' {
        c as int - 48
    } else if 'a' <= c && c <= 'f' {
        c as int - 87
    } else {
        -1
    }
}

/// What stands between the quotes for a character: the character itself, but
/// for quotes, backslashes and the controls, of which five have a letter of
/// their own and the others four hexadecimal digits.
pub proof fn law_characters_between_quotes(c: char)
    ensures
        ({
            let text = json_text(JsonView::Text { chars: seq![c] });
            let code = c as int;
            &&& code >= 32 && code != 34 && code != 92 ==> text == seq!['"', c, '"']
            &&& code == 34 || code == 92 ==> text == seq!['"', '\\', c, '"']
            &&& code == 8 ==> text == seq!['"', '\\', 'b', '"']
            &&& code == 9 ==> text == seq!['"', '\\', 't', '"']
            &&& code == 10 ==> text == seq!['"', '\\', 'n', '"']
            &&& code == 12 ==> text == seq!['"', '\\', 'f', '"']
            &&& code == 13 ==> text == seq!['"', '\\', 'r', '"']
            &&& code < 32 && !(8 <= code <= 10) && !(12 <= code <= 13) ==> {
                &&& text.len() == 8
                &&& text.take(5) == seq!['"', '\\', 'u', '0', '0']
                &&& 0 <= hex_value(text[5]) < 16
                &&& 0 <= hex_value(text[6]) < 16
                &&& hex_value(text[5]) * 16 + hex_value(text[6]) == code
            }
        }),
{
    let text = json_text(JsonView::Text { chars: seq![c] });
    let s = seq![c];
    assert(s.drop_last() =~= Seq::empty());
    assert(s.last() == c);
    reveal_with_fuel(escaped, 2);
    let inner = crate::json::escaped_char(c);
    assert(escaped(s) =~= inner);
    assert(text =~= seq!['"'] + inner + seq!['"']);
    let code = c as int;
    if code >= 32 && code != 34 && code != 92 {
        assert(text =~= seq!['"', c, '"']);
    } else if code == 34 || code == 92 {
        assert(text =~= seq!['"', '\\', c, '"']);
    } else if code == 8 {
        assert(text =~= seq!['"', '\\', 'b', '"']);
    } else if code == 9 {
        assert(text =~= seq!['"', '\\', 't', '"']);
    } else if code == 10 {
        assert(text =~= seq!['"', '\\', 'n', '"']);
    } else if code == 12 {
        assert(text =~= seq!['"', '\\', 'f', '"']);
    } else if code == 13 {
        assert(text =~= seq!['"', '\\', 'r', '"']);
    } else {
        assert(text.take(5) =~= seq!['"', '\\', 'u', '0', '0']);
    }
}

// ---------------------------------------------------------------------------
// Fingerprints
// ---------------------------------------------------------------------------
proof fn lemma_hex_at(data: Seq<u8>, i: int)
    requires
        0 <= i < data.len(),
    ensures
        hex_text(data).len() == 2 * data.len(),
        hex_value(hex_text(data)[2 * i]) * 16 + hex_value(hex_text(data)[2 * i + 1]) == data[i],
        0 <= hex_value(hex_text(data)[2 * i]) < 16,
        0 <= hex_value(hex_text(data)[2 * i + 1]) < 16,
    decreases data.len(),
{
    let rest = data.drop_last();
    if rest.len() == 0 {
        assert(hex_text(rest).len() == 0);
    } else if i < rest.len() {
        lemma_hex_at(rest, i);
    } else {
        lemma_hex_at(rest, 0);
    }
}

/// The bytes to sign are those of the canonical text. The fingerprint has two
/// lower-case hexadecimal digits for each byte of the digest of these bytes, in
/// their order, the higher half of the byte first.
pub proof fn law_fingerprints_spell_the_digest(
    v: &Json,
    text: String,
    bytes: Vec<u8>,
    r: String,
    i: int,
)
    requires
        call_ensures(to_canonical_json, (v,), text),
        call_ensures(canonical_bytes_from_value, (v,), bytes),
        call_ensures(fingerprint_sha256_hex, (v,), r),
        0 <= i < 32,
    ensures
        bytes@ == encode_utf8(text@),
        r@.len() == 64,
        0 <= hex_value(r@[2 * i]) < 16,
        0 <= hex_value(r@[2 * i + 1]) < 16,
        hex_value(r@[2 * i]) * 16 + hex_value(r@[2 * i + 1]) == sha256(bytes@)[i],
{
    let data = sha256(bytes@);
    if data.len() == 0 {
        assert(hex_text(data).len() == 0);
    } else {
        lemma_hex_at(data, 0);
        lemma_hex_at(data, i);
    }
}

// ---------------------------------------------------------------------------
// Signatures
// ---------------------------------------------------------------------------
/// A manifest is accepted exactly where there is a key for its signer, its
/// signature decodes to 64 bytes of which the last is below 32, and the
/// signature is that of the message under the key.
pub proof fn law_manifests_are_accepted(
    signer: Seq<char>,
    signature: Seq<char>,
    message: Seq<u8>,
    keys: Map<Seq<char>, Seq<u8>>,
)
    ensures
        manifest_verdict(signer, signature, message, keys) is Ok <==> {
            let data = base64_decoded(signature);
            &&& data is Some
            &&& data->0.len() == 64
            &&& data->0[63] < 32
            &&& keys.dom().contains(signer)
            &&& is_public_key(keys[signer])
            &&& signs(keys[signer], data->0, message)
        },
{
}

/// What is wrong with a manifest is told by the first thing that is: its
/// encoding, its form, its signer, their key, or the signature itself.
pub proof fn law_faults_of_manifests(
    decoded: Option<&Vec<u8>>,
    known: bool,
    parses: bool,
    verifies: bool,
    r: Result<(), ManifestError>,
)
    requires
        call_ensures(judge, (decoded, known, parses, verifies), r),
    ensures
        ({
            let formed = decoded is Some && decoded->0@.len() == 64 && decoded->0@[63] < 32;
            &&& r == Err::<(), ManifestError>(ManifestError::Base64) <==> decoded is None
            &&& r == Err::<(), ManifestError>(ManifestError::Signature) <==> decoded is Some
                && !formed
            &&& r == Err::<(), ManifestError>(ManifestError::UnknownSigner) <==> formed && !known
            &&& r == Err::<(), ManifestError>(ManifestError::PublicKey) <==> formed && known
                && !parses
            &&& r == Err::<(), ManifestError>(ManifestError::Mismatch) <==> formed && known
                && parses && !verifies
            &&& r is Ok <==> formed && known && parses && verifies
        }),
{
}

/// A signature is accepted under a key exactly where it decodes to 64 bytes of
/// which the last is below 32, the key is one, and the signature is that of
/// the bytes under it.
pub proof fn law_signatures_are_accepted(
    bytes: &[u8],
    signature: &str,
    key: &[u8],
    r: Result<(), SignatureError>,
)
    requires
        call_ensures(verify_manifest_signature, (bytes, signature, key), r),
    ensures
        r is Ok <==> {
            let data = base64_decoded(signature@);
            &&& data is Some
            &&& data->0.len() == 64
            &&& data->0[63] < 32
            &&& is_public_key(key@)
            &&& signs(key@, data->0, bytes@)
        },
{
}

/// What is wrong with a signature is told by the first thing that is: its
/// encoding, its form, the key, or the signature itself.
pub proof fn law_faults_of_signatures(
    decoded: Option<&Vec<u8>>,
    parses: bool,
    verifies: bool,
    r: Result<(), SignatureError>,
)
    requires
        call_ensures(judge_signature, (decoded, parses, verifies), r),
    ensures
        ({
            let formed = decoded is Some && decoded->0@.len() == 64 && decoded->0@[63] < 32;
            &&& r == Err::<(), SignatureError>(SignatureError::Base64) <==> decoded is None
            &&& r == Err::<(), SignatureError>(SignatureError::Signature) <==> decoded is Some
                && !formed
            &&& r == Err::<(), SignatureError>(SignatureError::PublicKey) <==> formed && !parses
            &&& r == Err::<(), SignatureError>(SignatureError::Mismatch) <==> formed && parses
                && !verifies
            &&& r is Ok <==> formed && parses && verifies
        }),
{
}

/// The texts that tell what is wrong.
pub proof fn law_faults_are_told(
    e: ManifestError,
    told: &'static str,
    f: SignatureError,
    said: &'static str,
)
    requires
        call_ensures(ManifestError::message, (&e,), told),
        call_ensures(SignatureError::message, (&f,), said),
    ensures
        told@ == match e {
            ManifestError::Manifest => "parse signed manifest"@,
            ManifestError::Base64 => "decode signature"@,
            ManifestError::Signature => "parse signature"@,
            ManifestError::UnknownSigner => "unknown signer"@,
            ManifestError::PublicKey => "parse public key"@,
            ManifestError::Mismatch => "signature verification failed"@,
        },
        said@ == match f {
            SignatureError::Base64 => "decoding base64 signature"@,
            SignatureError::Signature => "parsing signature bytes"@,
            SignatureError::PublicKey => "parsing public key bytes"@,
            SignatureError::Mismatch => "signature verification failed"@,
        },
{
}

// ---------------------------------------------------------------------------
// Trusted keys
// ---------------------------------------------------------------------------
/// What asking for a key came to, by the bytes.
pub open spec fn answered(r: Option<Vec<u8>>) -> Option<Seq<u8>> {
    match r {
        Some(key) => Some(key@),
        None => None,
    }
}

/// A new store has no key. One that is given a key answers with it, and for
/// every other signer as it did before.
pub proof fn law_stores_keep_their_keys(
    store: &mut InMemoryTrustStore,
    signer: &str,
    key: Vec<u8>,
    done: (),
    other: &str,
    before: Option<Vec<u8>>,
    after: Option<Vec<u8>>,
    empty: InMemoryTrustStore,
    none: Option<Vec<u8>>,
)
    requires
        call_ensures(InMemoryTrustStore::insert, (store, signer, key), done),
        call_ensures(
            <InMemoryTrustStore as TrustStore>::get_public_key,
            (&*old(store), other),
            before,
        ),
        call_ensures(
            <InMemoryTrustStore as TrustStore>::get_public_key,
            (&*final(store), other),
            after,
        ),
        call_ensures(InMemoryTrustStore::new, (), empty),
        call_ensures(<InMemoryTrustStore as TrustStore>::get_public_key, (&empty, other), none),
    ensures
        none is None,
        answered(after) == if other@ == signer@ {
            Some(key@)
        } else {
            answered(before)
        },
{
}

/// Stores that are shared are different, and each holds what the store that
/// was shared held. A key that is set in one is there in the copies of it and
/// in no other.
pub proof fn law_shared_stores_are_apart(
    stores: &mut TrustStores,
    mine: &SharedTrustStore,
    theirs: &SharedTrustStore,
    signer: &str,
    key: Vec<u8>,
    done: (),
    before: &InMemoryTrustStore,
    after: &InMemoryTrustStore,
)
    requires
        mine@ < old(stores)@.len(),
        theirs@ < old(stores)@.len(),
        call_ensures(SharedTrustStore::insert, (mine, stores, signer, key), done),
        call_ensures(SharedTrustStore::open, (theirs, &*old(stores)), before),
        call_ensures(SharedTrustStore::open, (theirs, &*final(stores)), after),
    ensures
        after.keys() == if theirs@ == mine@ {
            before.keys().insert(signer@, key@)
        } else {
            before.keys()
        },
{
}

/// A store that is shared is opened as what it was, and those that were shared
/// before stay what they are.
pub proof fn law_shared_stores_are_opened(
    stores: &mut TrustStores,
    store: InMemoryTrustStore,
    shared: SharedTrustStore,
    opened: &InMemoryTrustStore,
    other: &SharedTrustStore,
    before: &InMemoryTrustStore,
    after: &InMemoryTrustStore,
)
    requires
        call_ensures(TrustStores::share, (stores, store), shared),
        call_ensures(SharedTrustStore::open, (&shared, &*final(stores)), opened),
        other@ < old(stores)@.len(),
        call_ensures(SharedTrustStore::open, (other, &*old(stores)), before),
        call_ensures(SharedTrustStore::open, (other, &*final(stores)), after),
    ensures
        opened.keys() == store.keys(),
        shared@ != other@,
        after.keys() == before.keys(),
{
}

} // verus!

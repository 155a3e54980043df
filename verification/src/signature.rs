//! Signatures of manifests, and the keys that are trusted.

use crate::fingerprint::to_canonical_json;
use crate::json::{all_finite, json_text, readable, Json};
use crate::strmap::StrMap;
use base64::engine::general_purpose;
use base64::Engine;
use ed25519_dalek::{PublicKey, Signature, Verifier};
use vstd::pervasive::arbitrary;
use vstd::prelude::*;
use vstd::utf8::encode_utf8;

verus! {

// ---------------------------------------------------------------------------
// Trusted keys
// ---------------------------------------------------------------------------
/// Public keys by signer. They do not change while the store is borrowed, so
/// that one check of a manifest sees one set of keys.
pub trait TrustStore: Send + Sync {
    /// The keys by signer.
    closed spec fn keys(&self) -> Map<Seq<char>, Seq<u8>> {
        arbitrary()
    }

    /// The public key of a signer, if there is one.
    fn get_public_key(&self, signer: &str) -> (r: Option<Vec<u8>>)
        ensures
            match r {
                Some(pk) => self.keys().dom().contains(signer@) && pk@ == self.keys()[signer@],
                None => !self.keys().dom().contains(signer@),
            },
    ;
}

/// Public keys in memory.
pub struct InMemoryTrustStore {
    inner: StrMap<Vec<u8>>,
}

impl InMemoryTrustStore {
    /// The public keys by signer.
    pub closed spec fn table(&self) -> Map<Seq<char>, Seq<u8>> {
        self.inner@.map_values(|pk: Vec<u8>| pk@)
    }

    /// A store without keys.
    pub fn new() -> (r: Self)
        ensures
            r.table() == Map::<Seq<char>, Seq<u8>>::empty(),
    {
        let r = InMemoryTrustStore { inner: StrMap::new() };
        assert(r.table() =~= Map::<Seq<char>, Seq<u8>>::empty());
        r
    }

    /// Sets the key of a signer.
    pub fn insert(&mut self, signer: &str, pk: Vec<u8>)
        ensures
            final(self).table() == old(self).table().insert(signer@, pk@),
    {
        self.inner.insert(signer, pk);
        assert(self.table() =~= old(self).table().insert(signer@, pk@));
    }
}

impl Default for InMemoryTrustStore {
    fn default() -> (r: Self)
        ensures
            r.table() == Map::<Seq<char>, Seq<u8>>::empty(),
    {
        InMemoryTrustStore::new()
    }
}

impl TrustStore for InMemoryTrustStore {
    open spec fn keys(&self) -> Map<Seq<char>, Seq<u8>> {
        self.table()
    }

    fn get_public_key(&self, signer: &str) -> (r: Option<Vec<u8>>) {
        match self.inner.get(signer) {
            Some(pk) => {
                let copy = pk.clone();
                assert(copy@ =~= pk@);
                Some(copy)
            },
            None => None,
        }
    }
}

/// The stores that are shared.
pub struct TrustStores {
    list: Vec<InMemoryTrustStore>,
}

impl View for TrustStores {
    type V = Seq<Map<Seq<char>, Seq<u8>>>;

    closed spec fn view(&self) -> Seq<Map<Seq<char>, Seq<u8>>> {
        Seq::new(self.list@.len(), |i: int| self.list@[i].table())
    }
}

impl TrustStores {
    /// No stores.
    pub fn new() -> (r: Self)
        ensures
            r@ == Seq::<Map<Seq<char>, Seq<u8>>>::empty(),
    {
        let r = TrustStores { list: Vec::new() };
        assert(r@ =~= Seq::<Map<Seq<char>, Seq<u8>>>::empty());
        r
    }

    /// Shares a store.
    pub fn share(&mut self, store: InMemoryTrustStore) -> (r: SharedTrustStore)
        ensures
            r@ == old(self)@.len(),
            final(self)@ == old(self)@.push(store.table()),
    {
        let number: usize = self.list.len();
        self.list.push(store);
        assert(self@ =~= old(self)@.push(store.table()));
        SharedTrustStore { number }
    }
}

/// A store that is shared. Its copies are one store, which is kept among the
/// [`TrustStores`].
#[derive(Clone, Copy, Debug, PartialEq, Eq, Structural)]
pub struct SharedTrustStore {
    number: usize,
}

impl View for SharedTrustStore {
    type V = nat;

    closed spec fn view(&self) -> nat {
        self.number as nat
    }
}

impl SharedTrustStore {
    /// Sets the key of a signer.
    pub fn insert(&self, stores: &mut TrustStores, signer: &str, pk: Vec<u8>)
        requires
            self@ < old(stores)@.len(),
        ensures
            final(stores)@ == key_set(old(stores)@, self@, signer@, pk@),
    {
        stores.list[self.number].insert(signer, pk);
        assert(stores@ =~= key_set(old(stores)@, self@, signer@, pk@));
    }

    /// The store itself, to check manifests against.
    pub fn open<'a>(&self, stores: &'a TrustStores) -> (r: &'a InMemoryTrustStore)
        requires
            self@ < stores@.len(),
        ensures
            r.table() == stores@[self@ as int],
    {
        &stores.list[self.number]
    }
}

/// The keys in all shared stores once one of them got a key.
pub open spec fn key_set(
    all: Seq<Map<Seq<char>, Seq<u8>>>,
    number: nat,
    signer: Seq<char>,
    pk: Seq<u8>,
) -> Seq<Map<Seq<char>, Seq<u8>>> {
    all.update(number as int, all[number as int].insert(signer, pk))
}

/// A key that one copy of a shared store is given is there in every copy, in
/// place of any that was there for the signer. No other key changes, and no
/// other store.
pub proof fn law_copies_share_their_keys(
    all: Seq<Map<Seq<char>, Seq<u8>>>,
    given: nat,
    asked: nat,
    signer: Seq<char>,
    pk: Seq<u8>,
    other: Seq<char>,
)
    requires
        given < all.len(),
        asked < all.len(),
        other != signer,
    ensures
        ({
            let before = all[asked as int];
            let after = key_set(all, given, signer, pk)[asked as int];
            &&& asked == given ==> after.dom().contains(signer) && after[signer] == pk
            &&& after.dom().contains(other) == before.dom().contains(other)
            &&& before.dom().contains(other) ==> after[other] == before[other]
            &&& asked != given ==> after == before
        }),
{
}

// ---------------------------------------------------------------------------
// Calls into `base64` and `ed25519-dalek`
// ---------------------------------------------------------------------------
/// What a text stands for in base 64, if it is in that form.
pub uninterp spec fn base64_decoded(text: Seq<char>) -> Option<Seq<u8>>;

/// `decode` of the standard engine of `base64`: whether it succeeds, and what
/// bytes it then gives, depends on the text alone.
#[verifier::external_body]
fn base64_decode(text: &str) -> (r: Option<Vec<u8>>)
    ensures
        match r {
            Some(data) => base64_decoded(text@) == Some(data@),
            None => base64_decoded(text@) is None,
        },
{
    general_purpose::STANDARD.decode(text).ok()
}

/// The form of a signature: 64 bytes, the three highest bits of the last of
/// them clear.
pub open spec fn is_signature(data: Seq<u8>) -> bool {
    data.len() == 64 && data[63] < 32
}

/// `Signature::from_bytes` of `ed25519`: succeeds for the byte strings that
/// have the form of a signature.
#[verifier::external_body]
fn signature_parses(data: &[u8]) -> (r: bool)
    ensures
        r == is_signature(data@),
{
    Signature::from_bytes(data).is_ok()
}

/// Whether a byte string is the encoding of a public key.
pub uninterp spec fn is_public_key(data: Seq<u8>) -> bool;

/// `PublicKey::from_bytes` of `ed25519-dalek`: whether it succeeds, which it
/// does for some of the byte strings of 32 bytes and for no other.
#[verifier::external_body]
fn public_key_parses(data: &[u8]) -> (r: bool)
    ensures
        r == is_public_key(data@),
        r ==> data@.len() == 32,
{
    PublicKey::from_bytes(data).is_ok()
}

/// Whether a signature is that of a message under a public key.
pub uninterp spec fn signs(key: Seq<u8>, signature: Seq<u8>, message: Seq<u8>) -> bool;

/// `PublicKey::verify` of `ed25519-dalek`, on the key and the signature that
/// the byte strings encode: whether it succeeds depends on these and on the
/// message alone.
#[verifier::external_body]
fn signature_verifies(key: &[u8], signature: &[u8], message: &[u8]) -> (r: bool)
    requires
        is_public_key(key@),
        is_signature(signature@),
    ensures
        r == signs(key@, signature@, message@),
{
    match (PublicKey::from_bytes(key), Signature::from_bytes(signature)) {
        (Ok(key), Ok(signature)) => key.verify(message, &signature).is_ok(),
        _ => false,
    }
}

// ---------------------------------------------------------------------------
// Manifests
// ---------------------------------------------------------------------------
/// Who signed a manifest, and the signature in base 64.
pub struct SignedManifest {
    pub signer: String,
    pub signature: String,
}

/// Why a manifest is not accepted.
#[derive(Clone, Copy, Debug, PartialEq, Eq, Structural)]
pub enum ManifestError {
    Manifest,
    Base64,
    Signature,
    UnknownSigner,
    PublicKey,
    Mismatch,
}

impl ManifestError {
    /// The text for an error.
    pub open spec fn text(self) -> Seq<char> {
        match self {
            ManifestError::Manifest => "parse signed manifest"@,
            ManifestError::Base64 => "decode signature"@,
            ManifestError::Signature => "parse signature"@,
            ManifestError::UnknownSigner => "unknown signer"@,
            ManifestError::PublicKey => "parse public key"@,
            ManifestError::Mismatch => "signature verification failed"@,
        }
    }

    /// Says what is wrong.
    pub fn message(&self) -> (r: &'static str)
        ensures
            r@ == self.text(),
    {
        match *self {
            ManifestError::Manifest => "parse signed manifest",
            ManifestError::Base64 => "decode signature",
            ManifestError::Signature => "parse signature",
            ManifestError::UnknownSigner => "unknown signer",
            ManifestError::PublicKey => "parse public key",
            ManifestError::Mismatch => "signature verification failed",
        }
    }
}

/// The verdict on a signature that was decoded to `decoded`: what is wrong
/// first, if anything.
pub open spec fn verdict(
    decoded: Option<Seq<u8>>,
    known: bool,
    key_parses: bool,
    verifies: bool,
) -> Result<(), ManifestError> {
    if decoded is None {
        Err(ManifestError::Base64)
    } else if !is_signature(decoded->0) {
        Err(ManifestError::Signature)
    } else if !known {
        Err(ManifestError::UnknownSigner)
    } else if !key_parses {
        Err(ManifestError::PublicKey)
    } else if !verifies {
        Err(ManifestError::Mismatch)
    } else {
        Ok(())
    }
}

/// The verdict, from what decoding the signature came to, whether the signer
/// is known, whether their key is one, and whether the signature verifies.
pub fn judge(decoded: Option<&Vec<u8>>, known: bool, key_parses: bool, verifies: bool) -> (r: Result<
    (),
    ManifestError,
>)
    ensures
        r == verdict(
            match decoded {
                Some(d) => Some(d@),
                None => None,
            },
            known,
            key_parses,
            verifies,
        ),
{
    match decoded {
        None => Err(ManifestError::Base64),
        Some(d) => {
            if !signature_parses(d.as_slice()) {
                Err(ManifestError::Signature)
            } else if !known {
                Err(ManifestError::UnknownSigner)
            } else if !key_parses {
                Err(ManifestError::PublicKey)
            } else if !verifies {
                Err(ManifestError::Mismatch)
            } else {
                Ok(())
            }
        },
    }
}

/// The verdict on a signature in base 64 by a signer, over a message.
pub open spec fn manifest_verdict(
    signer: Seq<char>,
    signature: Seq<char>,
    message: Seq<u8>,
    keys: Map<Seq<char>, Seq<u8>>,
) -> Result<(), ManifestError> {
    let decoded = base64_decoded(signature);
    let key = keys[signer];
    verdict(
        decoded,
        keys.dom().contains(signer),
        is_public_key(key),
        signs(key, decoded->0, message),
    )
}

/// Checks the canonical bytes of a manifest against who signed it: `parsed` is
/// what reading the signer and the signature from its JSON came to.
pub fn verify_manifest(
    parsed: Option<&SignedManifest>,
    canonical_manifest_bytes: &[u8],
    trust: &dyn TrustStore,
) -> (r: Result<(), ManifestError>)
    ensures
        r == (match parsed {
            None => Err(ManifestError::Manifest),
            Some(sm) => manifest_verdict(
                sm.signer@,
                sm.signature@,
                canonical_manifest_bytes@,
                trust.keys(),
            ),
        }),
        r is Ok ==> parsed is Some && trust.keys().dom().contains(parsed->0.signer@) && signs(
            trust.keys()[parsed->0.signer@],
            base64_decoded(parsed->0.signature@)->0,
            canonical_manifest_bytes@,
        ),
{
    let sm = match parsed {
        Some(sm) => sm,
        None => {
            return Err(ManifestError::Manifest);
        },
    };
    let decoded = base64_decode(sm.signature.as_str());
    match &decoded {
        Some(signature) if signature_parses(signature.as_slice()) => {
            match trust.get_public_key(sm.signer.as_str()) {
                Some(key) => {
                    let parses = public_key_parses(key.as_slice());
                    let verifies = parses && signature_verifies(
                        key.as_slice(),
                        signature.as_slice(),
                        canonical_manifest_bytes,
                    );
                    judge(Some(signature), true, parses, verifies)
                },
                None => judge(Some(signature), false, false, false),
            }
        },
        Some(signature) => judge(Some(signature), false, false, false),
        None => judge(None, false, false, false),
    }
}

/// Why a signature is not accepted.
#[derive(Clone, Copy, Debug, PartialEq, Eq, Structural)]
pub enum SignatureError {
    Base64,
    Signature,
    PublicKey,
    Mismatch,
}

impl SignatureError {
    /// The text for an error.
    pub open spec fn text(self) -> Seq<char> {
        match self {
            SignatureError::Base64 => "decoding base64 signature"@,
            SignatureError::Signature => "parsing signature bytes"@,
            SignatureError::PublicKey => "parsing public key bytes"@,
            SignatureError::Mismatch => "signature verification failed"@,
        }
    }

    /// Says what is wrong.
    pub fn message(&self) -> (r: &'static str)
        ensures
            r@ == self.text(),
    {
        match *self {
            SignatureError::Base64 => "decoding base64 signature",
            SignatureError::Signature => "parsing signature bytes",
            SignatureError::PublicKey => "parsing public key bytes",
            SignatureError::Mismatch => "signature verification failed",
        }
    }
}

/// The verdict on a signature that was decoded to `decoded`: what is wrong
/// first, if anything.
pub open spec fn bare_verdict(
    decoded: Option<Seq<u8>>,
    key_parses: bool,
    verifies: bool,
) -> Result<(), SignatureError> {
    if decoded is None {
        Err(SignatureError::Base64)
    } else if !is_signature(decoded->0) {
        Err(SignatureError::Signature)
    } else if !key_parses {
        Err(SignatureError::PublicKey)
    } else if !verifies {
        Err(SignatureError::Mismatch)
    } else {
        Ok(())
    }
}

/// The verdict, from what decoding the signature came to, whether the key is
/// one, and whether the signature verifies.
pub fn judge_signature(decoded: Option<&Vec<u8>>, key_parses: bool, verifies: bool) -> (r: Result<
    (),
    SignatureError,
>)
    ensures
        r == bare_verdict(
            match decoded {
                Some(d) => Some(d@),
                None => None,
            },
            key_parses,
            verifies,
        ),
{
    match decoded {
        None => Err(SignatureError::Base64),
        Some(d) => {
            if !signature_parses(d.as_slice()) {
                Err(SignatureError::Signature)
            } else if !key_parses {
                Err(SignatureError::PublicKey)
            } else if !verifies {
                Err(SignatureError::Mismatch)
            } else {
                Ok(())
            }
        },
    }
}

/// The verdict on a signature in base 64 under a key, over a message.
pub open spec fn signature_verdict(
    message: Seq<u8>,
    signature: Seq<char>,
    key: Seq<u8>,
) -> Result<(), SignatureError> {
    let decoded = base64_decoded(signature);
    bare_verdict(decoded, is_public_key(key), signs(key, decoded->0, message))
}

/// Checks a signature in base 64 over the bytes of a manifest.
pub fn verify_manifest_signature(
    manifest_bytes: &[u8],
    signature_b64: &str,
    public_key_bytes: &[u8],
) -> (r: Result<(), SignatureError>)
    ensures
        r == signature_verdict(manifest_bytes@, signature_b64@, public_key_bytes@),
{
    let decoded = base64_decode(signature_b64);
    match &decoded {
        Some(signature) if signature_parses(signature.as_slice()) => {
            let parses = public_key_parses(public_key_bytes);
            let verifies = parses && signature_verifies(
                public_key_bytes,
                signature.as_slice(),
                manifest_bytes,
            );
            judge_signature(Some(signature), parses, verifies)
        },
        Some(signature) => judge_signature(Some(signature), false, false),
        None => judge_signature(None, false, false),
    }
}

/// The bytes of a value to sign: its canonical text, as
/// [`to_canonical_json`] gives it.
pub fn canonical_bytes_from_value(v: &Json) -> (r: Vec<u8>)
    requires
        all_finite(v@),
    ensures
        r@ == encode_utf8(json_text(v@)),
        readable(v@),
{
    let text = to_canonical_json(v);
    let bytes = text.as_str().as_bytes();
    let mut out: Vec<u8> = Vec::new();
    let mut i: usize = 0;
    while i < bytes.len()
        invariant
            i <= bytes@.len(),
            out@ == bytes@.take(i as int),
        decreases bytes@.len() - i,
    {
        out.push(bytes[i]);
        i = i + 1;
        assert(out@ =~= bytes@.take(i as int));
    }
    assert(out@ =~= bytes@);
    out
}

// ---------------------------------------------------------------------------
// Laws
// ---------------------------------------------------------------------------
/// A manifest is accepted under a trust store exactly where its signature is
/// accepted under the key that the store has for its signer.
pub proof fn law_manifest_is_accepted_under_its_key(
    signer: Seq<char>,
    signature: Seq<char>,
    message: Seq<u8>,
    keys: Map<Seq<char>, Seq<u8>>,
)
    ensures
        manifest_verdict(signer, signature, message, keys) is Ok <==> keys.dom().contains(signer)
            && signature_verdict(message, signature, keys[signer]) is Ok,
{
}

/// Nothing is accepted from a signer without a key.
pub proof fn law_unknown_signers_are_refused(
    signer: Seq<char>,
    signature: Seq<char>,
    message: Seq<u8>,
    keys: Map<Seq<char>, Seq<u8>>,
)
    requires
        !keys.dom().contains(signer),
    ensures
        manifest_verdict(signer, signature, message, keys) is Err,
{
}

} // verus!

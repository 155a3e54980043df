use base64::{engine::general_purpose, Engine};
use ed25519_dalek::{Keypair, PublicKey, SecretKey, Signer};
use eenn::fingerprint::{digest_hex, fingerprint_sha256_hex, to_canonical_json};
use eenn::json::{write_json, Json, JsonNumber};
use eenn::nd::F64;
use eenn::signature::{
    canonical_bytes_from_value, judge, judge_signature, verify_manifest, verify_manifest_signature,
    InMemoryTrustStore, ManifestError, SignatureError, SignedManifest, TrustStore, TrustStores,
};

fn s(text: &str) -> Json {
    Json::String(text.to_string())
}

fn whole(n: u64) -> Json {
    Json::Number(JsonNumber::PosInt(n))
}

fn float(x: f64) -> Json {
    Json::Number(JsonNumber::Float(F64 { bits: x.to_bits() }))
}

fn object(members: Vec<(&str, Json)>) -> Json {
    Json::Object(members.into_iter().map(|(k, v)| (k.to_string(), v)).collect())
}

fn from_value(v: &serde_json::Value) -> Json {
    match v {
        serde_json::Value::Null => Json::Null,
        serde_json::Value::Bool(b) => Json::Bool(*b),
        serde_json::Value::Number(n) => Json::Number(if let Some(u) = n.as_u64() {
            JsonNumber::PosInt(u)
        } else if let Some(i) = n.as_i64() {
            JsonNumber::NegInt(i)
        } else {
            JsonNumber::Float(F64 { bits: n.as_f64().unwrap().to_bits() })
        }),
        serde_json::Value::String(t) => s(t),
        serde_json::Value::Array(a) => Json::Array(a.iter().map(from_value).collect()),
        serde_json::Value::Object(m) => {
            Json::Object(m.iter().map(|(k, v)| (k.clone(), from_value(v))).collect())
        }
    }
}

#[test]
fn canonical_json_stable_order() {
    let v = object(vec![("b", whole(2)), ("a", s("x"))]);
    let j = to_canonical_json(&v);
    assert!(j.contains("\"a\""));
    assert!(j.find("\"a\"").unwrap() < j.find("\"b\"").unwrap());
    assert_eq!(j, "{\"a\":\"x\",\"b\":2.0}");
}

#[test]
fn fingerprint_is_deterministic() {
    let a = object(vec![("z", whole(1)), ("y", whole(2))]);
    let b = object(vec![("y", whole(2)), ("z", whole(1))]);
    assert_eq!(fingerprint_sha256_hex(&a), fingerprint_sha256_hex(&b));
}

#[test]
fn permuted_keys_produce_same_fingerprint() {
    let ops = || Json::Array(vec![s("relu"), s("scale")]);
    let features = || Json::Array(vec![s("f32")]);
    let a = object(vec![("ops", ops()), ("version", whole(1)), ("device_features", features())]);
    let b = object(vec![("device_features", features()), ("ops", ops()), ("version", whole(1))]);
    let fa = fingerprint_sha256_hex(&a);
    let fb = fingerprint_sha256_hex(&b);
    assert_eq!(fa, fb, "fingerprints must match for permuted keys");
}

#[test]
fn differently_formatted_floats_produce_same_fingerprint() {
    let s1 = r#"{"value": 1.0, "ratio": 0.10000000000000001}"#;
    let s2 = r#"{"ratio": 0.1, "value": 1}"#;
    let v1: serde_json::Value = serde_json::from_str(s1).expect("parse s1");
    let v2: serde_json::Value = serde_json::from_str(s2).expect("parse s2");
    let v1 = from_value(&v1);
    let v2 = from_value(&v2);
    let c1 = to_canonical_json(&v1);
    let c2 = to_canonical_json(&v2);
    assert_eq!(c1, c2, "canonical JSON should normalize float formatting");
    assert_eq!(c1, "{\"ratio\":0.1,\"value\":1.0}");
    let f1 = fingerprint_sha256_hex(&v1);
    let f2 = fingerprint_sha256_hex(&v2);
    assert_eq!(f1, f2, "fingerprints should match for numerically equal floats");
}

#[test]
fn explicit_null_vs_missing_field_are_distinct() {
    let ops = || Json::Array(vec![s("relu")]);
    let a = object(vec![("ops", ops()), ("optional", Json::Null)]);
    let b = object(vec![("ops", ops())]);
    let ca = to_canonical_json(&a);
    let cb = to_canonical_json(&b);
    assert_ne!(ca, cb, "explicit null should differ from missing field");
    let fa = fingerprint_sha256_hex(&a);
    let fb = fingerprint_sha256_hex(&b);
    assert_ne!(fa, fb, "fingerprints should differ when optional field is null vs missing");
}

#[test]
fn text_of_every_kind_of_value() {
    let v = object(vec![
        ("t", Json::Bool(true)),
        ("f", Json::Bool(false)),
        ("n", Json::Null),
        ("i", Json::Number(JsonNumber::NegInt(-12))),
        ("m", Json::Number(JsonNumber::NegInt(i64::MIN))),
        ("x", float(1e300)),
        ("e", Json::Array(vec![])),
        ("o", object(vec![])),
        ("s", s("a\"\\\u{8}\u{c}\n\r\t\u{1}\u{1f}/é")),
    ]);
    assert_eq!(
        write_json(&v),
        "{\"e\":[],\"f\":false,\"i\":-12.0,\"m\":-9.223372036854776e+18,\"n\":null,\"o\":{},\"s\":\"a\\\"\\\\\\b\\f\\n\\r\\t\\u0001\\u001f/é\",\"t\":true,\"x\":1e+300}"
    );
    assert_eq!(
        to_canonical_json(&Json::Array(vec![whole(u64::MAX), Json::Number(JsonNumber::NegInt(-3))])),
        "[1.8446744073709552e+19,-3.0]"
    );
}

#[test]
fn text_is_that_of_serde_json() {
    let text = r#"{"b":[1.0,2.5,-7e40,{"z":null,"a":"\u0002 é\n"}],"a":{"k":true},"":0.0}"#;
    let v: serde_json::Value = serde_json::from_str(text).unwrap();
    assert_eq!(write_json(&from_value(&v)), serde_json::to_string(&v).unwrap());
    assert_eq!(
        canonical_bytes_from_value(&from_value(&v)),
        serde_json::to_vec(&v).unwrap()
    );
}

#[test]
fn the_later_of_two_members_counts() {
    let v = object(vec![("k", whole(1)), ("j", whole(2)), ("k", whole(3))]);
    assert_eq!(write_json(&v), "{\"j\":2.0,\"k\":3.0}");
}

#[test]
fn keys_are_ordered_by_their_bytes() {
    let v = object(vec![("é", whole(1)), ("z", whole(2)), ("Z", whole(3)), ("za", whole(4)), ("", whole(5))]);
    assert_eq!(
        write_json(&v),
        "{\"\":5.0,\"Z\":3.0,\"z\":2.0,\"za\":4.0,\"é\":1.0}"
    );
}

#[test]
fn bytes_to_sign_are_the_canonical_text() {
    let v = object(vec![("b", whole(1)), ("a", s("x"))]);
    assert_eq!(canonical_bytes_from_value(&v), b"{\"a\":\"x\",\"b\":1.0}");
    assert_eq!(canonical_bytes_from_value(&v), to_canonical_json(&v).into_bytes());
}

#[test]
fn order_of_items_shows() {
    let a = Json::Array(vec![s("relu"), s("scale")]);
    let b = Json::Array(vec![s("scale"), s("relu")]);
    assert_ne!(to_canonical_json(&a), to_canonical_json(&b));
    assert_ne!(fingerprint_sha256_hex(&a), fingerprint_sha256_hex(&b));
    let split = Json::Array(vec![s("relu"), s("sca"), s("le")]);
    assert_ne!(to_canonical_json(&a), to_canonical_json(&split));
    let joined = Json::Array(vec![s("relu\",\"scale")]);
    assert_eq!(to_canonical_json(&joined), "[\"relu\\\",\\\"scale\"]");
    assert_ne!(to_canonical_json(&a), to_canonical_json(&joined));
}

#[test]
fn numbers_inside_a_value_share_their_text() {
    let minus = |n: i64| Json::Number(JsonNumber::NegInt(n));
    let a = object(vec![("k", Json::Array(vec![whole(1), object(vec![("d", minus(-3))])]))]);
    let b = object(vec![("k", Json::Array(vec![float(1.0), object(vec![("d", float(-3.0))])]))]);
    assert_eq!(to_canonical_json(&a), "{\"k\":[1.0,{\"d\":-3.0}]}");
    assert_eq!(to_canonical_json(&a), to_canonical_json(&b));
    assert_eq!(fingerprint_sha256_hex(&a), fingerprint_sha256_hex(&b));
}

#[test]
fn fingerprints_are_sha256_in_hexadecimal() {
    // SHA-256 of "null".
    assert_eq!(
        fingerprint_sha256_hex(&Json::Null),
        "74234e98afe7498fb5daf1f36ac2d78acc339464f950703b8c019892f982b90b"
    );
    assert_eq!(digest_hex(&[0x00, 0x0f, 0xa0, 0xff]), "000fa0ff");
}

fn keypair(seed: u8) -> Keypair {
    let sk = SecretKey::from_bytes(&[seed; 32]).expect("secret key");
    let pubkey = PublicKey::from(&sk);
    Keypair { secret: sk, public: pubkey }
}

fn signed(signer: &str, signature: String) -> SignedManifest {
    SignedManifest { signer: signer.to_string(), signature }
}

#[test]
fn verify_signed_manifest_happy_path() {
    let kp = keypair(0x12);
    let manifest = b"{\"ops\":[],\"version\":1}";
    let sig = kp.sign(manifest);
    let sm = signed("test-signer", general_purpose::STANDARD.encode(sig.to_bytes()));
    let mut trust = InMemoryTrustStore::new();
    trust.insert("test-signer", kp.public.to_bytes().to_vec());
    verify_manifest(Some(&sm), manifest, &trust as &dyn TrustStore).unwrap();
}

#[test]
fn verify_rejects_tampered_manifest() {
    let kp = keypair(0x34);
    let manifest = b"{\"ops\":[],\"version\":1}";
    let sig = kp.sign(manifest);
    let sm = signed("test-signer", general_purpose::STANDARD.encode(sig.to_bytes()));
    let mut trust = InMemoryTrustStore::new();
    trust.insert("test-signer", kp.public.to_bytes().to_vec());
    let tampered = b"{\"ops\":[],\"version\":2}";
    let res = verify_manifest(Some(&sm), tampered, &trust as &dyn TrustStore);
    assert!(res.is_err());
    assert_eq!(res, Err(ManifestError::Mismatch));
}

#[test]
fn sign_and_verify_manifest_roundtrip() {
    let kp = keypair(0x12);
    let manifest = object(vec![
        ("fingerprint_version", whole(1)),
        ("ops", Json::Array(vec![object(vec![("name", s("relu")), ("impl", s("v1"))])])),
        ("dtype", s("f32")),
        ("composer_version", s("wgsl-composer-0.1")),
        ("artifact_kind", s("generic")),
    ]);
    let bytes = canonical_bytes_from_value(&manifest);
    let sig = kp.sign(&bytes);
    let sig_b64 = general_purpose::STANDARD.encode(sig.to_bytes());
    let pubkey_bytes = kp.public.to_bytes();
    verify_manifest_signature(&bytes, &sig_b64, &pubkey_bytes).expect("verify ok");

    let sm = signed("test-signer", sig_b64);
    let mut trust = InMemoryTrustStore::new();
    trust.insert("test-signer", pubkey_bytes.to_vec());
    verify_manifest(Some(&sm), &bytes, &trust as &dyn TrustStore).expect("verify via truststore");
}

#[test]
fn every_way_to_refuse_a_manifest() {
    let kp = keypair(0x56);
    let message = b"m";
    let good = general_purpose::STANDARD.encode(kp.sign(message).to_bytes());
    let mut trust = InMemoryTrustStore::default();
    let check = |trust: &InMemoryTrustStore, signature: &str| {
        verify_manifest(Some(&signed("who", signature.to_string())), message, trust)
    };
    assert_eq!(verify_manifest(None, message, &trust), Err(ManifestError::Manifest));
    assert_eq!(check(&trust, "not base 64!"), Err(ManifestError::Base64));
    assert_eq!(check(&trust, "AAAA"), Err(ManifestError::Signature));
    let high = general_purpose::STANDARD.encode([0xffu8; 64]);
    assert_eq!(check(&trust, &high), Err(ManifestError::Signature));
    assert_eq!(check(&trust, &good), Err(ManifestError::UnknownSigner));
    trust.insert("who", vec![1, 2, 3]);
    assert_eq!(check(&trust, &good), Err(ManifestError::PublicKey));
    trust.insert("who", keypair(0x57).public.to_bytes().to_vec());
    assert_eq!(check(&trust, &good), Err(ManifestError::Mismatch));
    trust.insert("who", kp.public.to_bytes().to_vec());
    assert_eq!(check(&trust, &good), Ok(()));
    assert_eq!(ManifestError::UnknownSigner.message(), "unknown signer");
    assert_eq!(judge(None, true, true, true), Err(ManifestError::Base64));
    assert_eq!(judge(Some(&vec![0; 64]), true, true, true), Ok(()));
}

#[test]
fn copies_of_a_store_share_their_keys() {
    let kp = keypair(0x59);
    let sm = signed("who", general_purpose::STANDARD.encode(kp.sign(b"m").to_bytes()));
    let mut stores = TrustStores::new();
    let store = stores.share(InMemoryTrustStore::new());
    let other = stores.share(InMemoryTrustStore::new());
    let copy = store.clone();
    store.insert(&mut stores, "who", vec![1]);
    store.insert(&mut stores, "else", vec![2]);
    copy.insert(&mut stores, "who", kp.public.to_bytes().to_vec());
    assert_eq!(store.open(&stores).get_public_key("who"), Some(kp.public.to_bytes().to_vec()));
    assert_eq!(copy.open(&stores).get_public_key("else"), Some(vec![2]));
    assert_eq!(other.open(&stores).get_public_key("who"), None);
    assert_eq!(verify_manifest(Some(&sm), b"m", store.open(&stores)), Ok(()));
    assert_eq!(
        verify_manifest(Some(&sm), b"m", other.open(&stores)),
        Err(ManifestError::UnknownSigner)
    );
}

#[test]
fn every_way_to_refuse_a_signature() {
    let kp = keypair(0x58);
    let key = kp.public.to_bytes();
    let good = general_purpose::STANDARD.encode(kp.sign(b"m").to_bytes());
    assert_eq!(verify_manifest_signature(b"m", "*", &key), Err(SignatureError::Base64));
    assert_eq!(verify_manifest_signature(b"m", "AAAA", &key), Err(SignatureError::Signature));
    assert_eq!(verify_manifest_signature(b"m", &good, &[7; 31]), Err(SignatureError::PublicKey));
    assert_eq!(verify_manifest_signature(b"n", &good, &key), Err(SignatureError::Mismatch));
    assert_eq!(verify_manifest_signature(b"m", &good, &key), Ok(()));
    assert_eq!(SignatureError::PublicKey.message(), "parsing public key bytes");
}

#[test]
fn verdicts_on_signatures() {
    let form = vec![0; 64];
    assert_eq!(judge_signature(None, true, true), Err(SignatureError::Base64));
    assert_eq!(judge_signature(Some(&vec![0; 63]), true, true), Err(SignatureError::Signature));
    assert_eq!(judge_signature(Some(&form), false, true), Err(SignatureError::PublicKey));
    assert_eq!(judge_signature(Some(&form), true, false), Err(SignatureError::Mismatch));
    assert_eq!(judge_signature(Some(&form), true, true), Ok(()));
    assert_eq!(judge(Some(&form), false, true, true), Err(ManifestError::UnknownSigner));
    assert_eq!(judge(Some(&form), true, false, true), Err(ManifestError::PublicKey));
    assert_eq!(judge(Some(&form), true, true, false), Err(ManifestError::Mismatch));
}

use bbs::prelude::{DeterministicPublicKey, KeyGenOption, SecretKey, SIGNATURE_COMPRESSED_SIZE};
use bbs::FR_COMPRESSED_SIZE;
use fieldsig::canon::normalize;
use fieldsig::doc::Value;
use fieldsig::scheme::{sign, verify, Error};

fn doc_jane() -> Value {
    Value::Object(vec![
        (b"firstName".to_vec(), Value::Str(b"Jane".to_vec())),
        (b"age".to_vec(), Value::Int(24)),
    ])
}

fn doc_john() -> Value {
    Value::Object(vec![
        (b"firstName".to_vec(), Value::Str(b"John".to_vec())),
        (b"age".to_vec(), Value::Int(24)),
    ])
}

fn fixed_secret_key() -> SecretKey {
    SecretKey::try_from([42u8; FR_COMPRESSED_SIZE]).unwrap()
}

#[test]
fn test_normalize() {
    let document = doc_jane();

    let normalized = normalize(&document);

    println!("{:?}", normalized);

    assert_eq!(normalized.len(), 2);
}

#[test]
fn test_sign() {
    let sk = fixed_secret_key();

    let document = doc_john();

    let signature = sign(&document, &sk);

    assert_eq!(signature.len(), SIGNATURE_COMPRESSED_SIZE);
}

#[test]
fn test_sign_and_verify() {
    let secret_key = fixed_secret_key();
    let (dpk, _) =
        DeterministicPublicKey::new(Some(KeyGenOption::FromSecretKey(secret_key.clone())));

    let document = doc_john();

    let signature = sign(&document, &secret_key);

    assert_eq!(signature.len(), SIGNATURE_COMPRESSED_SIZE);

    let result = verify(&document, signature.as_slice(), &dpk);

    assert!(result.is_ok());
    assert!(result.unwrap());
}

#[test]
fn normalize_concrete_statements() {
    let normalized = normalize(&doc_jane());
    assert_eq!(normalized.len(), 2);
    assert_eq!(normalized[0], b"{\"/age\":24}".to_vec());
    assert_eq!(normalized[1], b"{\"/firstName\":\"Jane\"}".to_vec());
}

#[test]
fn normalize_is_deterministic() {
    let a = normalize(&doc_john());
    let b = normalize(&doc_john());
    assert_eq!(a, b);
}

#[test]
fn normalize_is_order_independent() {
    let reordered = Value::Object(vec![
        (b"age".to_vec(), Value::Int(24)),
        (b"firstName".to_vec(), Value::Str(b"Jane".to_vec())),
    ]);
    assert_eq!(normalize(&doc_jane()), normalize(&reordered));
}

#[test]
fn normalize_nested_order_independent() {
    let a = Value::Object(vec![
        (
            b"address".to_vec(),
            Value::Object(vec![
                (b"city".to_vec(), Value::Str(b"Berlin".to_vec())),
                (b"zip".to_vec(), Value::Str(b"10117".to_vec())),
            ]),
        ),
        (b"age".to_vec(), Value::Int(30)),
    ]);
    let b = Value::Object(vec![
        (b"age".to_vec(), Value::Int(30)),
        (
            b"address".to_vec(),
            Value::Object(vec![
                (b"zip".to_vec(), Value::Str(b"10117".to_vec())),
                (b"city".to_vec(), Value::Str(b"Berlin".to_vec())),
            ]),
        ),
    ]);
    assert_eq!(normalize(&a), normalize(&b));
}

#[test]
fn normalize_counts_leaves() {
    let document = Value::Object(vec![
        (
            b"address".to_vec(),
            Value::Object(vec![
                (b"city".to_vec(), Value::Str(b"Berlin".to_vec())),
                (b"zip".to_vec(), Value::Str(b"10117".to_vec())),
            ]),
        ),
        (
            b"phones".to_vec(),
            Value::Array(vec![Value::Str(b"123".to_vec()), Value::Str(b"456".to_vec())]),
        ),
        (b"name".to_vec(), Value::Str(b"John Smith".to_vec())),
        (b"retired".to_vec(), Value::Bool(false)),
        (b"spouse".to_vec(), Value::Null),
    ]);
    assert_eq!(normalize(&document).len(), 7);
}

#[test]
fn normalize_escapes_pointer_characters() {
    let document = Value::Object(vec![(b"a/b~c".to_vec(), Value::Null)]);
    let normalized = normalize(&document);
    assert_eq!(normalized, vec![b"{\"/a~1b~0c\":null}".to_vec()]);
}

#[test]
fn normalize_escapes_json_string_characters() {
    let document = Value::Object(vec![(
        b"k\"l".to_vec(),
        Value::Str(b"a\\b\nc\x01".to_vec()),
    )]);
    let normalized = normalize(&document);
    assert_eq!(
        normalized,
        vec![b"{\"/k\\\"l\":\"a\\\\b\\nc\\u0001\"}".to_vec()]
    );
}

#[test]
fn normalize_keeps_utf8_unescaped() {
    let key = "stra\u{00df}e";
    let document = Value::Object(vec![(
        key.as_bytes().to_vec(),
        Value::Str("M\u{00fc}nchen".as_bytes().to_vec()),
    )]);
    let normalized = normalize(&document);
    assert_eq!(
        normalized,
        vec![format!("{{\"/{}\":\"M\u{00fc}nchen\"}}", key).into_bytes()]
    );
}

#[test]
fn normalize_formats_integers() {
    let document = Value::Array(vec![
        Value::Int(0),
        Value::Int(-7),
        Value::Int(i64::MIN),
        Value::Int(i64::MAX),
    ]);
    let normalized = normalize(&document);
    assert_eq!(
        normalized,
        vec![
            b"{\"/0\":0}".to_vec(),
            b"{\"/1\":-7}".to_vec(),
            b"{\"/2\":-9223372036854775808}".to_vec(),
            b"{\"/3\":9223372036854775807}".to_vec(),
        ]
    );
}

#[test]
fn normalize_formats_unsigned_above_signed_range() {
    let document = Value::Object(vec![(b"big".to_vec(), Value::UInt(u64::MAX))]);
    let normalized = normalize(&document);
    assert_eq!(
        normalized,
        vec![b"{\"/big\":18446744073709551615}".to_vec()]
    );
}

#[test]
fn normalize_embeds_decimal_rendering_verbatim() {
    let document = Value::Object(vec![(
        b"ratio".to_vec(),
        Value::Decimal(b"1.5".to_vec()),
    )]);
    let normalized = normalize(&document);
    assert_eq!(normalized, vec![b"{\"/ratio\":1.5}".to_vec()]);
}

#[test]
fn sign_and_verify_decimal_document() {
    let secret_key = fixed_secret_key();
    let (dpk, _) =
        DeterministicPublicKey::new(Some(KeyGenOption::FromSecretKey(secret_key.clone())));

    let document = Value::Object(vec![
        (b"ratio".to_vec(), Value::Decimal(b"-2.25".to_vec())),
        (b"big".to_vec(), Value::UInt(9223372036854775808)),
    ]);
    let signature = sign(&document, &secret_key);
    let result = verify(&document, signature.as_slice(), &dpk);
    assert!(result.is_ok());
    assert!(result.unwrap());
}

#[test]
fn normalize_two_digit_indices() {
    let mut items = Vec::new();
    for i in 0..12 {
        items.push(Value::Int(i));
    }
    let normalized = normalize(&Value::Array(items));
    assert!(normalized.contains(&b"{\"/11\":11}".to_vec()));
    assert_eq!(normalized.len(), 12);
}

#[test]
fn normalize_empty_containers_are_leaves() {
    let document = Value::Object(vec![
        (b"a".to_vec(), Value::Array(vec![])),
        (b"b".to_vec(), Value::Object(vec![])),
    ]);
    let normalized = normalize(&document);
    assert_eq!(
        normalized,
        vec![b"{\"/a\":[]}".to_vec(), b"{\"/b\":{}}".to_vec()]
    );
}

#[test]
fn normalize_empty_root_array() {
    let normalized = normalize(&Value::Array(vec![]));
    assert_eq!(normalized, vec![b"{\"\":[]}".to_vec()]);
}

#[test]
fn normalize_scalar_root() {
    let normalized = normalize(&Value::Bool(true));
    assert_eq!(normalized, vec![b"{\"\":true}".to_vec()]);
}

#[test]
fn verify_rejects_tampered_document() {
    let secret_key = fixed_secret_key();
    let (dpk, _) =
        DeterministicPublicKey::new(Some(KeyGenOption::FromSecretKey(secret_key.clone())));

    let signature = sign(&doc_john(), &secret_key);

    let result = verify(&doc_jane(), signature.as_slice(), &dpk);
    assert!(result.is_ok());
    assert!(!result.unwrap());
}

#[test]
fn verify_rejects_wrong_key() {
    let secret_key = fixed_secret_key();
    let other_key = SecretKey::try_from([7u8; FR_COMPRESSED_SIZE]).unwrap();
    let (other_dpk, _) =
        DeterministicPublicKey::new(Some(KeyGenOption::FromSecretKey(other_key)));

    let signature = sign(&doc_john(), &secret_key);

    let result = verify(&doc_john(), signature.as_slice(), &other_dpk);
    assert!(result.is_ok());
    assert!(!result.unwrap());
}

#[test]
fn verify_rejects_malformed_signature_bytes() {
    let secret_key = fixed_secret_key();
    let (dpk, _) =
        DeterministicPublicKey::new(Some(KeyGenOption::FromSecretKey(secret_key)));

    let result = verify(&doc_john(), b"not a signature", &dpk);
    assert_eq!(result, Err(Error::MalformedSignature));
}

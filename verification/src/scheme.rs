use vstd::prelude::*;
use vstd::pervasive::unreached;
use bbs::HashElem;
use bbs::SignatureMessage;
use bbs::errors::BBSError;
use bbs::prelude::{DeterministicPublicKey, KeyGenOption, PublicKey, SecretKey, Signature};
use crate::bytes::views;
use crate::canon::{canon_spec, normalize};
use crate::doc::{Value, leaf_count, lemma_leaf_count_pos};

verus! {

/// Number of bytes of a compressed signature.
pub const SIGNATURE_LENGTH: usize = 112;

/// How signing or checking a document can fail.
#[derive(Debug, PartialEq, Eq, Structural)]
pub enum Error {
    /// The signature bytes do not decode to a signature of the scheme.
    MalformedSignature,
    /// The signature primitive rejected its inputs; documents of this
    /// library always carry at least one leaf, so signing and checking
    /// never produce it.
    SchemeError,
}

/// Declares bbs's `SecretKey` so it can stand in signatures; opaque here.
#[verifier::external_type_specification]
#[verifier::external_body]
pub struct ExSecretKey(SecretKey);

/// Declares bbs's `DeterministicPublicKey`; opaque here.
#[verifier::external_type_specification]
#[verifier::external_body]
pub struct ExDeterministicPublicKey(DeterministicPublicKey);

/// Declares bbs's `PublicKey`; opaque here.
#[verifier::external_type_specification]
#[verifier::external_body]
pub struct ExPublicKey(PublicKey);

/// Declares bbs's `Signature`; opaque here.
#[verifier::external_type_specification]
#[verifier::external_body]
pub struct ExSignature(Signature);

/// Declares bbs's `SignatureMessage`; opaque here.
#[verifier::external_type_specification]
#[verifier::external_body]
pub struct ExSignatureMessage(SignatureMessage);

/// Declares bbs's `BBSError`; opaque here.
#[verifier::external_type_specification]
#[verifier::external_body]
pub struct ExBBSError(BBSError);

/// The message the scheme's hash assigns to a byte string.
pub uninterp spec fn message_of(data: Seq<u8>) -> SignatureMessage;

/// The deterministic public key that belongs to a secret key.
pub uninterp spec fn dpk_of(sk: SecretKey) -> DeterministicPublicKey;

/// The public key a deterministic public key derives for a message count.
pub uninterp spec fn pk_of(
    dpk: DeterministicPublicKey,
    n: nat,
) -> PublicKey;

/// The compressed byte encoding of a signature.
pub uninterp spec fn sig_bytes_of(sig: Signature) -> Seq<u8>;

/// The signature that a byte string decodes to, where decoding succeeds.
pub uninterp spec fn decoded_sig(bytes: Seq<u8>) -> Signature;

/// Whether a byte string decodes to a signature at all; decoding is a
/// function of the bytes alone, so this names its success.
pub uninterp spec fn decodes(bytes: Seq<u8>) -> bool;

/// The verdict of the scheme's pairing check for a message sequence, a
/// signature and a public key.
pub uninterp spec fn verifies(
    msgs: Seq<SignatureMessage>,
    sig: Signature,
    pk: PublicKey,
) -> bool;

/// Relies on bbs's `SignatureMessage::hash`: a Blake2 hash into the scheme's
/// message space, deterministic in the bytes alone.
#[verifier::external_body]
fn hash_message(data: &Vec<u8>) -> (m: SignatureMessage)
    ensures
        m == message_of(data@),
{
    SignatureMessage::hash(data.as_slice())
}

/// Relies on bbs's `DeterministicPublicKey::new` with a fixed secret key:
/// it returns the commitment to that key, a function of the key alone, and
/// does not fail.
#[verifier::external_body]
fn derive_dpk(sk: &SecretKey) -> (r: DeterministicPublicKey)
    ensures
        r == dpk_of(*sk),
{
    let (dpk, _) = DeterministicPublicKey::new(
        Some(KeyGenOption::FromSecretKey(sk.clone())),
    );
    dpk
}

/// Relies on bbs's `DeterministicPublicKey::to_public_key`: generators are
/// derived deterministically from the key and the count, the returned key is
/// sized for exactly that count, and the call fails exactly when the count
/// is zero.
#[verifier::external_body]
fn derive_public_key(dpk: &DeterministicPublicKey, n: usize) -> (r: Result<PublicKey, BBSError>)
    ensures
        n >= 1 ==> r is Ok && r->Ok_0 == pk_of(*dpk, n as nat),
        n == 0 ==> r is Err,
{
    dpk.to_public_key(n)
}

/// Relies on bbs's `Signature::new`: it fails only when more messages are
/// given than the key was sized for, and a signature it returns passes the
/// scheme's own check over the same messages and key (the call draws
/// randomness; this holds of every outcome). In the probability-negligible
/// event that the random exponent equals the negated secret key, the call
/// aborts instead of returning; no input can bring that about.
#[verifier::external_body]
fn new_signature(
    msgs: &Vec<SignatureMessage>,
    sk: &SecretKey,
    pk: &PublicKey,
) -> (r: Result<Signature, BBSError>)
    requires
        *pk == pk_of(dpk_of(*sk), msgs@.len()),
        msgs@.len() >= 1,
    ensures
        r is Ok,
        verifies(msgs@, r->Ok_0, *pk),
{
    Signature::new(msgs.as_slice(), sk, pk)
}

/// Relies on bbs's `Signature::to_bytes_compressed_form`: the fixed-size
/// compressed encoding, a function of the signature alone.
#[verifier::external_body]
fn signature_to_bytes(sig: &Signature) -> (r: Vec<u8>)
    ensures
        r@ == sig_bytes_of(*sig),
        r@.len() == SIGNATURE_LENGTH,
{
    sig.to_bytes_compressed_form().to_vec()
}

/// Relies on bbs's `TryFrom<&[u8]>` for `Signature`: decoding is a function
/// of the bytes alone and inverts the compressed encoding, so the encoding
/// of a signature decodes to exactly that signature.
#[verifier::external_body]
fn signature_from_bytes(bytes: &[u8]) -> (r: Result<Signature, BBSError>)
    ensures
        r is Ok <==> decodes(bytes@),
        r is Ok ==> r->Ok_0 == decoded_sig(bytes@),
        forall|s: Signature| bytes@ == sig_bytes_of(s) ==> r is Ok && r->Ok_0 == s,
{
    Signature::try_from(bytes)
}

/// Relies on bbs's `Signature::verify`: a deterministic pairing check; it
/// fails only when the message count differs from the key's size, which the
/// caller rules out by deriving the key for this very count.
#[verifier::external_body]
fn check_signature(
    msgs: &Vec<SignatureMessage>,
    sig: &Signature,
    pk: &PublicKey,
) -> (r: Result<bool, BBSError>)
    requires
        exists|dpk: DeterministicPublicKey| *pk == pk_of(dpk, msgs@.len()),
    ensures
        r is Ok && r->Ok_0 == verifies(msgs@, *sig, *pk),
{
    sig.verify(msgs.as_slice(), pk)
}

/// The messages of a statement sequence, in order.
pub open spec fn messages_of(stmts: Seq<Seq<u8>>) -> Seq<SignatureMessage> {
    stmts.map_values(|s: Seq<u8>| message_of(s))
}

/// Hash every statement into a scheme message, keeping the order.
fn hash_all(stmts: &Vec<Vec<u8>>) -> (r: Vec<SignatureMessage>)
    ensures
        r@ == messages_of(views(stmts@)),
{
    let mut r: Vec<SignatureMessage> = Vec::new();
    let mut i: usize = 0;
    while i < stmts.len()
        invariant
            i <= stmts@.len(),
            r@ == messages_of(views(stmts@.take(i as int))),
        decreases stmts@.len() - i,
    {
        let m = hash_message(&stmts[i]);
        r.push(m);
        proof {
            assert(r@ =~= messages_of(views(stmts@.take(i + 1))));
        }
        i = i + 1;
    }
    proof {
        assert(stmts@.take(i as int) =~= stmts@);
    }
    r
}

/// What `sign` guarantees of the bytes it returns.
pub open spec fn sign_post(d: Value, sk: SecretKey, bytes: Seq<u8>) -> bool {
    &&& bytes.len() == SIGNATURE_LENGTH
    &&& exists|s: Signature|
        bytes == sig_bytes_of(s) && verifies(
            messages_of(canon_spec(d)),
            s,
            pk_of(dpk_of(sk), leaf_count(d)),
        )
}

/// What `verify` guarantees of its verdict.
pub open spec fn verify_post(
    d: Value,
    bytes: Seq<u8>,
    dpk: DeterministicPublicKey,
    r: Result<bool, Error>,
) -> bool {
    &&& forall|s: Signature|
        bytes == sig_bytes_of(s) ==> r == Ok::<bool, Error>(
            verifies(messages_of(canon_spec(d)), s, pk_of(dpk, leaf_count(d))),
        )
    &&& (r matches Ok(b) ==> b == verifies(
        messages_of(canon_spec(d)),
        decoded_sig(bytes),
        pk_of(dpk, leaf_count(d)),
    ))
    &&& (r is Err <==> !decodes(bytes))
    &&& (r is Err ==> r->Err_0 == Error::MalformedSignature)
}

/// Sign a document: canonicalize it, hash each statement into a message,
/// derive the public key sized for exactly that message count, and sign.
/// Returns the compressed signature bytes.
pub fn sign(document: &Value, secret_key: &SecretKey) -> (r: Vec<u8>)
    ensures
        sign_post(*document, *secret_key, r@),
{
    let stmts = normalize(document);
    let msgs = hash_all(&stmts);
    proof {
        lemma_leaf_count_pos(*document);
    }
    let dpk = derive_dpk(secret_key);
    let pk = match derive_public_key(&dpk, msgs.len()) {
        Ok(pk) => pk,
        Err(_) => unreached(),
    };
    let sig = match new_signature(&msgs, secret_key, &pk) {
        Ok(s) => s,
        Err(_) => unreached(),
    };
    signature_to_bytes(&sig)
}

/// Check a document against signature bytes and a deterministic public key.
/// The message count is recomputed from this very document; the verdict is
/// `Ok(true)` exactly when the scheme accepts the signature over it.
/// Bytes that do not decode give `MalformedSignature`, and only those: a
/// cryptographic mismatch is the verdict `Ok(false)`, never an error.
pub fn verify(
    document: &Value,
    signature: &[u8],
    d_public_key: &DeterministicPublicKey,
) -> (r: Result<bool, Error>)
    ensures
        verify_post(*document, signature@, *d_public_key, r),
{
    let stmts = normalize(document);
    let msgs = hash_all(&stmts);
    proof {
        lemma_leaf_count_pos(*document);
    }
    let pk = match derive_public_key(d_public_key, msgs.len()) {
        Ok(pk) => pk,
        Err(_) => unreached(),
    };
    let sig = match signature_from_bytes(signature) {
        Ok(s) => s,
        Err(_) => {
            return Err(Error::MalformedSignature);
        },
    };
    let ok = match check_signature(&msgs, &sig, &pk) {
        Ok(b) => b,
        Err(_) => unreached(),
    };
    Ok(ok)
}

/// Round trip: whatever bytes `sign` produced for a document, `verify` on
/// the same document and the key's deterministic public key answers
/// `Ok(true)`.
pub proof fn lemma_round_trip(
    d: Value,
    sk: SecretKey,
    bytes: Seq<u8>,
    r: Result<bool, Error>,
)
    requires
        sign_post(d, sk, bytes),
        verify_post(d, bytes, dpk_of(sk), r),
    ensures
        r == Ok::<bool, Error>(true),
{
    let s = choose|s: Signature|
        bytes == sig_bytes_of(s) && verifies(
            messages_of(canon_spec(d)),
            s,
            pk_of(dpk_of(sk), leaf_count(d)),
        );
    assert(bytes == sig_bytes_of(s));
}

} // verus!

//! The signer: a keyed message-authentication code (HMAC with SHA-256) over
//! the serialized event body, rendered as lowercase hex for the signature
//! header. The MAC itself comes from the `hmac` and `sha2` crates behind
//! trusted wrappers; everything around it is verified.
use vstd::prelude::*;

verus! {

/// The HMAC-SHA256 tag over `msg` under `key`: a pure function of the two,
/// computed by the `hmac` crate.
pub uninterp spec fn hmac_sha256_of(key: Seq<char>, msg: Seq<char>) -> Seq<u8>;

/// The lowercase hex rendering of `bytes`: two digits per byte, high nibble
/// first.
pub open spec fn hex_of(bytes: Seq<u8>) -> Seq<char>
    decreases bytes.len(),
{
    if bytes.len() == 0 {
        Seq::empty()
    } else {
        hex_of(bytes.drop_last()) + seq![
            crate::json::hex_digit(bytes.last() as int / 16),
            crate::json::hex_digit(bytes.last() as int % 16),
        ]
    }
}

/// Relies on `hmac::Hmac<sha2::Sha256>` (`new_from_slice`, `update`,
/// `finalize`): the tag depends on the key and message bytes alone, and a
/// SHA-256 tag is 32 bytes. `new_from_slice` accepts keys of every length,
/// so the `expect` cannot fire.
#[verifier::external_body]
fn hmac_sha256(key: &str, msg: &str) -> (r: Vec<u8>)
    ensures
        r@ == hmac_sha256_of(key@, msg@),
        r@.len() == 32,
{
    let mut mac = <hmac::Hmac<sha2::Sha256> as hmac::Mac>::new_from_slice(key.as_bytes())
        .expect("HMAC accepts any key length");
    hmac::Mac::update(&mut mac, msg.as_bytes());
    hmac::Mac::finalize(mac).into_bytes().to_vec()
}

/// Relies on `hex::encode`: two lowercase hex digits per input byte, in
/// order.
#[verifier::external_body]
fn hex_encode(bytes: &[u8]) -> (r: String)
    ensures
        r@ == hex_of(bytes@),
{
    hex::encode(bytes)
}

/// The error returned when a signer is built from an unusable (empty)
/// secret.
#[derive(Debug, PartialEq, Eq, Clone, Copy)]
pub struct InvalidKeyLength;

/// A signer holding the current secret. Signing is deterministic: the same
/// body under the same secret always yields the same signature.
#[derive(Debug)]
pub struct Signer {
    secret: String,
}

impl View for Signer {
    type V = Seq<char>;

    closed spec fn view(&self) -> Seq<char> {
        self.secret@
    }
}

impl Signer {
    /// Builds a signer from `secret`; an empty secret is rejected.
    pub fn new(secret: String) -> (r: Result<Signer, InvalidKeyLength>)
        ensures
            secret@.len() > 0 ==> (r matches Ok(s) && s@ == secret@),
            secret@.len() == 0 ==> r is Err,
    {
        if secret.as_str().is_empty() {
            Err(InvalidKeyLength)
        } else {
            Ok(Signer { secret })
        }
    }

    /// The raw 32-byte tag over `body` under the current secret.
    pub fn sign(&self, body: &str) -> (r: Vec<u8>)
        ensures
            r@ == hmac_sha256_of(self@, body@),
            r@.len() == 32,
    {
        hmac_sha256(self.secret.as_str(), body)
    }

    /// The tag over `body`, rendered as lowercase hex for the signature
    /// header.
    pub fn sign_hex(&self, body: &str) -> (r: String)
        ensures
            r@ == hex_of(hmac_sha256_of(self@, body@)),
    {
        let tag = self.sign(body);
        hex_encode(tag.as_slice())
    }
}

/// SIGNATURE DETERMINISM. Signing the same body under the same key always
/// yields the same signature: `sign` pins its result to a function of the
/// key and the body alone, so any two of its results for the same pair
/// coincide. (That two different bodies get different signatures is a
/// property of the hash itself, not stated here; the tests exercise it.)
pub proof fn lemma_signature_deterministic(
    key: Seq<char>,
    body: Seq<char>,
    s1: Seq<u8>,
    s2: Seq<u8>,
)
    requires
        s1 == hmac_sha256_of(key, body),
        s2 == hmac_sha256_of(key, body),
    ensures
        s1 == s2,
{
}

} // verus!

//! Capability URLs: a keyed digest over an artifact's hash and a path inside
//! it authorises the download of exactly that file.

use base64::engine::general_purpose::URL_SAFE;
use base64::Engine;
use hmac::{Hmac, Mac};
use rand::RngCore;
use sha2::Sha256;
use vstd::prelude::*;
use vstd::string::StringExecFns;
use vstd::utf8::encode_utf8;
use crate::pxe::error::PxeError;

verus! {

/// The HMAC-SHA256 tag of `message` under `key`.
pub uninterp spec fn hmac_sha256(key: Seq<u8>, message: Seq<u8>) -> Seq<u8>;

/// The URL-safe base64 encoding of `bytes`, with padding.
pub uninterp spec fn base64_url(bytes: Seq<u8>) -> Seq<char>;

/// `Mac::new_from_slice`, `Mac::update` and `Mac::finalize` of the crate
/// hmac, on its `Hmac` over `Sha256` of the crate sha2: a state keyed with
/// `key` is fed `message` in one piece and finalized.  What comes out is the
/// tag, which has 32 bytes and depends on the key and the message alone.
#[verifier::external_body]
fn hmac_tag(key: &[u8], message: &[u8]) -> (tag: Vec<u8>)
    ensures
        tag@ == hmac_sha256(key@, message@),
        tag@.len() == 32,
{
    let mut mac = Hmac::<Sha256>::new_from_slice(key).expect("HMAC takes a key of any length");
    mac.update(message);
    mac.finalize().into_bytes().to_vec()
}

/// `Mac::verify_slice` of the crate hmac, on a state made as in
/// [`hmac_tag`]: the comparison, in constant time, of `tag` with the tag of
/// `message`.  It succeeds only for a `tag` of the full length that holds
/// the same bytes.
#[verifier::external_body]
fn hmac_verify(key: &[u8], message: &[u8], tag: &[u8]) -> (ok: bool)
    ensures
        ok == (tag@ == hmac_sha256(key@, message@)),
{
    let mut mac = Hmac::<Sha256>::new_from_slice(key).expect("HMAC takes a key of any length");
    mac.update(message);
    mac.verify_slice(tag).is_ok()
}

/// `Engine::encode` of the crate base64, with its `URL_SAFE` engine: the
/// text that stands for `bytes`, which depends on the bytes alone.  The
/// length asked for keeps the size of the text within the machine's
/// integers, beyond which the crate gives up.
#[verifier::external_body]
fn base64_encode(bytes: &[u8]) -> (text: String)
    requires
        bytes@.len() <= 0x3000_0000,
    ensures
        text@ == base64_url(bytes@),
{
    URL_SAFE.encode(bytes)
}

/// `Engine::decode` of the crate base64, with its `URL_SAFE` engine.  That
/// engine asks for canonical padding and refuses stray trailing bits, so it
/// accepts a text only if it is the encoding of some bytes, and those bytes
/// are the only ones with that encoding.
#[verifier::external_body]
fn base64_decode(text: &str) -> (r: Option<Vec<u8>>)
    ensures
        match r {
            Some(bytes) => {
                &&& base64_url(bytes@) == text@
                &&& forall|other: Seq<u8>| #[trigger] base64_url(other) == text@ ==> other == bytes@
            },
            None => forall|other: Seq<u8>| #[trigger] base64_url(other) != text@,
        },
{
    URL_SAFE.decode(text).ok()
}

/// `RngCore::fill_bytes` on `rand::rng()`, the thread's generator of the
/// crate rand: 32 bytes of which nothing is claimed.
#[verifier::external_body]
fn random_secret() -> (secret: [u8; 32]) {
    let mut secret = [0u8; 32];
    rand::rng().fill_bytes(&mut secret);
    secret
}

/// What is signed for a file: the bytes of the hash, then those of the path,
/// with nothing between them.
pub open spec fn signed_message(hash: Seq<char>, path: Seq<char>) -> Seq<u8> {
    encode_utf8(hash) + encode_utf8(path)
}

/// Signs and checks the capability that lets a client fetch one file of one
/// artifact.  The secret lives in memory only: a new signer accepts none of
/// the signatures of an earlier one.
pub struct Signer {
    secret: Vec<u8>,
}

impl Signer {
    /// The secret that keys the digest.
    pub closed spec fn key(&self) -> Seq<u8> {
        self.secret@
    }

    /// The digest that binds `hash` and `path` under this signer's secret.
    pub open spec fn spec_tag(&self, hash: Seq<char>, path: Seq<char>) -> Seq<u8> {
        hmac_sha256(self.key(), signed_message(hash, path))
    }

    /// The signature of `(hash, path)`: the digest in URL-safe base64.
    pub open spec fn spec_sign(&self, hash: Seq<char>, path: Seq<char>) -> Seq<char> {
        base64_url(self.spec_tag(hash, path))
    }

    /// The URL under which the file is served, signature included.
    pub open spec fn spec_file_url(&self, hash: Seq<char>, path: Seq<char>) -> Seq<char> {
        "/pxe/file/"@ + hash + "/"@ + path + "?key="@ + self.spec_sign(hash, path)
    }

    /// A signer with the given secret.
    pub fn new(secret: [u8; 32]) -> (s: Signer)
        ensures
            s.key() == secret@,
    {
        let mut bytes: Vec<u8> = Vec::new();
        let mut i: usize = 0;
        while i < 32
            invariant
                i <= 32,
                bytes@ == secret@.subrange(0, i as int),
            decreases 32 - i,
        {
            bytes.push(secret[i]);
            assert(secret@.subrange(0, i + 1) =~= secret@.subrange(0, i as int).push(
                secret@[i as int],
            ));
            i = i + 1;
        }
        assert(secret@.subrange(0, 32) =~= secret@);
        Signer { secret: bytes }
    }

    /// A signer with a fresh random secret.
    pub fn generate() -> (s: Signer)
        ensures
            s.key().len() == 32,
    {
        Signer::new(random_secret())
    }

    /// The digest that binds `hash` and `path`.
    pub fn mac_url(&self, hash: &str, path: &str) -> (tag: Vec<u8>)
        ensures
            tag@ == self.spec_tag(hash@, path@),
            tag@.len() == 32,
    {
        let mut message = hash.as_bytes_vec();
        let mut rest = path.as_bytes_vec();
        message.append(&mut rest);
        hmac_tag(self.secret.as_slice(), message.as_slice())
    }

    /// The signature that authorises fetching `path` of the artifact `hash`.
    pub fn sign(&self, hash: &str, path: &str) -> (key: String)
        ensures
            key@ == self.spec_sign(hash@, path@),
    {
        let tag = self.mac_url(hash, path);
        base64_encode(tag.as_slice())
    }

    /// Whether `key` is the signature of `(hash, path)`: true for what
    /// [`Signer::sign`] gives for the same pair, and false for every other
    /// text, be it one bit away.
    pub fn verify(&self, hash: &str, path: &str, key: &str) -> (ok: bool)
        ensures
            ok == (key@ == self.spec_sign(hash@, path@)),
    {
        let mut message = hash.as_bytes_vec();
        let mut rest = path.as_bytes_vec();
        message.append(&mut rest);
        match base64_decode(key) {
            Some(tag) => hmac_verify(self.secret.as_slice(), message.as_slice(), tag.as_slice()),
            None => false,
        }
    }

    /// The URL under which `path` of the artifact `hash` is served, with the
    /// signature as its `key` parameter.
    pub fn file_url(&self, hash: &str, path: &str) -> (url: String)
        ensures
            url@ == self.spec_file_url(hash@, path@),
    {
        let key = self.sign(hash, path);
        let mut url = "/pxe/file/".to_owned();
        url.append(hash);
        url.append("/");
        url.append(path);
        url.append("?key=");
        url.append(key.as_str());
        url
    }

    /// Checks the signature of a request for a file.
    pub fn verify_file_url(&self, hash: &str, path: &str, key: &str) -> (r: Result<(), PxeError>)
        ensures
            r is Ok <==> key@ == self.spec_sign(hash@, path@),
            r matches Err(e) ==> e is InvalidAuthentication,
    {
        if self.verify(hash, path, key) {
            Ok(())
        } else {
            Err(PxeError::InvalidAuthentication)
        }
    }

    /// Decides whether a request for a file may go on to the store.  A request
    /// without a key is refused like one with a wrong key.
    pub fn authorize(&self, hash: &str, path: &str, key: Option<&str>) -> (r: Result<(), PxeError>)
        ensures
            r is Ok <==> (key matches Some(k) && k@ == self.spec_sign(hash@, path@)),
            r matches Err(e) ==> e is InvalidAuthentication,
    {
        match key {
            Some(k) => self.verify_file_url(hash, path, k),
            None => Err(PxeError::InvalidAuthentication),
        }
    }
}

} // verus!

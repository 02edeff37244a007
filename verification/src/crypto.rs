//! Session keys and the decryption of what the sign-in service sends.
use cbc::cipher::{block_padding::Pkcs7, BlockModeDecrypt, KeyIvInit};
use hmac::{KeyInit, Mac};
use vstd::prelude::*;

verus! {

/// The SHA-256 based authentication code of a message under a key.
pub uninterp spec fn hmac_sha256(key: Seq<u8>, message: Seq<u8>) -> Seq<u8>;

/// What AES with a key of 256 bits, in CBC mode and with PKCS #7 padding, makes of `data`; none where
/// the padding is wrong.
pub uninterp spec fn aes256_cbc_plain(key: Seq<u8>, iv: Seq<u8>, data: Seq<u8>) -> Option<Seq<u8>>;

/// `hmac::Hmac` over `sha2::Sha256`: the authentication code of `message` under `key`, which is
/// [`hmac_sha256`]. It has 32 bytes, whatever the length of the key.
#[verifier::external_body]
fn authentication_code(key: &[u8], message: &[u8]) -> (r: Vec<u8>)
    ensures
        r@ == hmac_sha256(key@, message@),
        r@.len() == 32,
{
    let mac = hmac::Hmac::<sha2::Sha256>::new_from_slice(key).unwrap().chain_update(message);
    mac.finalize().into_bytes().to_vec()
}

/// `cbc::Decryptor` over `aes::Aes256` with `Pkcs7`: decrypts `data`. What comes out, and whether the
/// padding is right, is [`aes256_cbc_plain`]. Keys and start values of other lengths are refused.
#[verifier::external_body]
fn decrypt_blocks(key: &[u8], iv: &[u8], data: &[u8]) -> (r: Option<Vec<u8>>)
    requires
        key@.len() == 32,
        iv@.len() == 16,
    ensures
        match r {
            Some(plain) => aes256_cbc_plain(key@, iv@, data@) == Some(plain@),
            None => aes256_cbc_plain(key@, iv@, data@) is None,
        },
{
    let decryptor = cbc::Decryptor::<aes::Aes256>::new_from_slices(key, iv).unwrap();
    decryptor.decrypt_padded_vec::<Pkcs7>(data).ok()
}

/// The key of a session for the purpose that `name` stands for.
pub open spec fn session_key(shared: Seq<u8>, name: Seq<char>) -> Seq<u8> {
    hmac_sha256(shared, vstd::utf8::encode_utf8(name))
}

/// The key of a session for the purpose that `name` stands for, from the key that both sides share.
pub fn create_session_key(shared_key: &[u8], name: &str) -> (r: Vec<u8>)
    ensures
        r@ == session_key(shared_key@, name@),
        r@.len() == 32,
{
    authentication_code(shared_key, name.as_bytes())
}

/// What the service sent in encrypted form; none where it is damaged.
pub open spec fn session_plain(shared: Seq<u8>, data: Seq<u8>) -> Option<Seq<u8>> {
    aes256_cbc_plain(
        session_key(shared, "extra data key:"@),
        session_key(shared, "extra data iv:"@).take(16),
        data,
    )
}

fn try_decrypt(shared_key: &[u8], data: &[u8]) -> (r: Option<Vec<u8>>)
    ensures
        match r {
            Some(plain) => session_plain(shared_key@, data@) == Some(plain@),
            None => session_plain(shared_key@, data@) is None,
        },
{
    let key: Vec<u8> = create_session_key(shared_key, "extra data key:");
    let long_iv: Vec<u8> = create_session_key(shared_key, "extra data iv:");
    let iv: &[u8] = vstd::slice::slice_subrange(long_iv.as_slice(), 0, 16);
    proof {
        assert(iv@ =~= long_iv@.take(16));
    }
    decrypt_blocks(key.as_slice(), iv, data)
}

/// Decrypts what the service sent, which must not be damaged.
pub fn decrypt_cbc(shared_key: &[u8], data: &[u8]) -> (r: Vec<u8>)
    requires
        session_plain(shared_key@, data@) is Some,
    ensures
        session_plain(shared_key@, data@) == Some(r@),
{
    match try_decrypt(shared_key, data) {
        Some(plain) => plain,
        None => Vec::new(),
    }
}

/// Decrypts what the service sent; none where it is damaged.
pub fn checked_decrypt_cbc(shared_key: &[u8], data: &[u8]) -> (r: Option<Vec<u8>>)
    ensures
        match r {
            Some(plain) => session_plain(shared_key@, data@) == Some(plain@),
            None => session_plain(shared_key@, data@) is None,
        },
{
    if try_decrypt(shared_key, data).is_some() {
        Some(decrypt_cbc(shared_key, data))
    } else {
        None
    }
}

/// The key and the start vector are made of the shared secret under two different names, in this
/// order.
pub proof fn law_key_and_start_vector(shared: Seq<u8>, data: Seq<u8>)
    ensures
        session_plain(shared, data) == aes256_cbc_plain(
            hmac_sha256(shared, vstd::utf8::encode_utf8("extra data key:"@)),
            hmac_sha256(shared, vstd::utf8::encode_utf8("extra data iv:"@)).take(16),
            data,
        ),
{
}

} // verus!

//! The two primitives that an encrypted cookie store rests on: key
//! derivation and block decryption. Both are computed by the `rust-crypto`
//! crate; this module gives their results a name and states what the
//! crate's source shows of them.

use crypto::aes::{cbc_decryptor, KeySize};
use crypto::blockmodes::NoPadding;
use crypto::buffer::{RefReadBuffer, RefWriteBuffer};
use crypto::hmac::Hmac;
use crypto::pbkdf2::pbkdf2;
use crypto::sha1::Sha1;
use crypto::symmetriccipher::SymmetricCipherError;
use vstd::prelude::*;

verus! {

/// Length in bytes of a key and of a cipher block.
pub const BLOCK_LENGTH: usize = 16;

#[verifier::external_type_specification]
#[verifier::external_body]
pub struct ExSymmetricCipherError(crypto::symmetriccipher::SymmetricCipherError);

/// The first `length` bytes of PBKDF2 with HMAC-SHA1 as its pseudorandom
/// function, for a passphrase, a salt and a number of rounds.
pub uninterp spec fn pbkdf2_hmac_sha1(
    passphrase: Seq<u8>,
    salt: Seq<u8>,
    rounds: u32,
    length: nat,
) -> Seq<u8>;

/// The bytes that AES-128 in CBC mode decrypts `data` to under `key` and
/// `iv`, with nothing removed from the last block.
pub uninterp spec fn aes128_cbc_plain(key: Seq<u8>, iv: Seq<u8>, data: Seq<u8>) -> Seq<u8>;

/// Calls `crypto::pbkdf2::pbkdf2` with an HMAC-SHA1 keyed by `passphrase`.
///
/// Trusted: the call fills a buffer of `length` bytes, and those bytes are
/// what `pbkdf2_hmac_sha1` names. The crate asserts that the number of
/// rounds is positive, and counts the blocks of twenty bytes that it
/// writes in thirty-two bits, hence the two preconditions.
#[verifier::external_body]
pub(crate) fn derive_bytes(passphrase: &[u8], salt: &[u8], rounds: u32, length: usize) -> (key: Vec<
    u8,
>)
    requires
        rounds >= 1,
        length <= 20 * 0xFFFF_FFFF,
    ensures
        key@.len() == length,
        key@ == pbkdf2_hmac_sha1(passphrase@, salt@, rounds, length as nat),
{
    let mut key = vec![0u8; length];
    let mut mac = Hmac::new(Sha1::new(), passphrase);
    pbkdf2(&mut mac, salt, rounds, &mut key);
    key
}

/// Calls `crypto::aes::cbc_decryptor` for a 128-bit key without padding
/// removal, and runs the decryptor once over all of `data` into a buffer of
/// the same length.
///
/// Trusted: the decryptor rejects input that is not a whole number of
/// blocks and accepts every other input; what it writes is as long as the
/// input and is what `aes128_cbc_plain` names. Key and vector must each be
/// one block long, or the crate reads outside them.
#[verifier::external_body]
pub(crate) fn decrypt_blocks(key: &[u8], iv: &[u8], data: &[u8]) -> (plain: Result<
    Vec<u8>,
    SymmetricCipherError,
>)
    requires
        key@.len() == BLOCK_LENGTH,
        iv@.len() == BLOCK_LENGTH,
    ensures
        plain is Ok <==> data@.len() % (BLOCK_LENGTH as nat) == 0,
        plain is Ok ==> plain->Ok_0@.len() == data@.len(),
        plain is Ok ==> plain->Ok_0@ == aes128_cbc_plain(key@, iv@, data@),
{
    let mut plain = vec![0u8; data.len()];
    let mut decryptor = cbc_decryptor(KeySize::KeySize128, key, iv, NoPadding);
    let mut input = RefReadBuffer::new(data);
    let mut output = RefWriteBuffer::new(&mut plain);
    decryptor.decrypt(&mut input, &mut output, true)?;
    Ok(plain)
}

} // verus!

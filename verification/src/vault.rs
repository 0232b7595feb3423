//! Decryption of the values of an encrypted cookie store.
//!
//! A stored value is a three-byte version tag followed by whole cipher
//! blocks. The blocks decrypt under a key derived from a passphrase; the
//! plain bytes end in padding whose last byte is its own length, and what
//! precedes the padding is UTF-8 text.

use crate::cipher::{
    aes128_cbc_plain, decrypt_blocks, derive_bytes, pbkdf2_hmac_sha1, BLOCK_LENGTH,
};
use crate::error::RemoteError;
use vstd::prelude::*;
use vstd::slice::slice_subrange;
use vstd::utf8::{
    decode_utf8, encode_utf8, encode_utf8_decode_utf8, encode_utf8_valid_utf8, valid_utf8,
};

verus! {

/// Length in bytes of the version tag that precedes the cipher blocks.
pub const TAG_LENGTH: usize = 3;

/// Why a stored value could not be decoded.
#[derive(Clone, Copy, Debug, PartialEq, Eq, Structural)]
pub enum DecodeError {
    /// The cipher parameters derive no key.
    Parameters,
    /// The value is shorter than its version tag.
    Tag,
    /// What follows the tag is not a whole number of cipher blocks.
    Cipher,
    /// The plain bytes are empty, or their last byte exceeds their number.
    Padding,
    /// The unpadded bytes are not UTF-8.
    Text,
}

impl DecodeError {
    /// The message that reports this failure.
    pub open spec fn spec_message(self) -> Seq<char> {
        match self {
            DecodeError::Parameters => "unusable cipher parameters"@,
            DecodeError::Tag => "encrypted value too short"@,
            DecodeError::Cipher => "InvalidLength"@,
            DecodeError::Padding => "decrypt error"@,
            DecodeError::Text => "invalid utf-8 sequence"@,
        }
    }

    /// The message that reports this failure.
    pub fn message(self) -> (text: String)
        ensures
            text@ == self.spec_message(),
    {
        match self {
            DecodeError::Parameters => "unusable cipher parameters".to_owned(),
            DecodeError::Tag => "encrypted value too short".to_owned(),
            DecodeError::Cipher => "InvalidLength".to_owned(),
            DecodeError::Padding => "decrypt error".to_owned(),
            DecodeError::Text => "invalid utf-8 sequence".to_owned(),
        }
    }

    /// This failure as the error of a task.
    pub fn into_error(self) -> (error: RemoteError)
        ensures
            error@ == self.spec_message(),
    {
        RemoteError::new(self.message())
    }
}

/// Whether `plain` ends in a pad length that it can hold.
pub open spec fn padding_fits(plain: Seq<u8>) -> bool {
    plain.len() > 0 && plain.last() as nat <= plain.len()
}

/// `plain` without the padding that its last byte counts.
pub open spec fn without_padding(plain: Seq<u8>) -> Seq<u8>
    recommends
        padding_fits(plain),
{
    plain.take(plain.len() - plain.last() as nat)
}

/// What removing the padding of `plain` gives.
pub open spec fn spec_unpad(plain: Seq<u8>) -> Result<Seq<u8>, DecodeError> {
    if padding_fits(plain) {
        Ok(without_padding(plain))
    } else {
        Err(DecodeError::Padding)
    }
}

/// Removes the padding of decrypted bytes: the last byte is the number of
/// bytes to drop, itself included.
pub fn unpad(plain: Vec<u8>) -> (bytes: Result<Vec<u8>, DecodeError>)
    ensures
        match bytes {
            Ok(b) => spec_unpad(plain@) == Ok::<Seq<u8>, DecodeError>(b@),
            Err(e) => spec_unpad(plain@) == Err::<Seq<u8>, DecodeError>(e),
        },
{
    let length: usize = plain.len();
    if length == 0 {
        return Err(DecodeError::Padding);
    }
    let pad: usize = plain[length - 1] as usize;
    if pad > length {
        return Err(DecodeError::Padding);
    }
    let mut bytes = plain;
    bytes.truncate(length - pad);
    Ok(bytes)
}

/// Calls `String::from_utf8`.
///
/// Trusted: the call succeeds exactly on valid UTF-8, and the string it
/// gives is the text that the bytes encode.
#[verifier::external_body]
fn text_of(bytes: Vec<u8>) -> (text: Option<String>)
    ensures
        text is Some <==> valid_utf8(bytes@),
        text is Some ==> text->Some_0@ == decode_utf8(bytes@),
{
    match String::from_utf8(bytes) {
        Ok(text) => Some(text),
        Err(_) => None,
    }
}

/// What decrypted bytes hold: the text before their padding.
pub open spec fn spec_open_plain(plain: Seq<u8>) -> Result<Seq<char>, DecodeError> {
    if !padding_fits(plain) {
        Err(DecodeError::Padding)
    } else if !valid_utf8(without_padding(plain)) {
        Err(DecodeError::Text)
    } else {
        Ok(decode_utf8(without_padding(plain)))
    }
}

/// Turns decrypted bytes into the stored text: removes the padding and
/// reads the rest as UTF-8.
pub fn open_plain(plain: Vec<u8>) -> (text: Result<String, DecodeError>)
    ensures
        match text {
            Ok(t) => spec_open_plain(plain@) == Ok::<Seq<char>, DecodeError>(t@),
            Err(e) => spec_open_plain(plain@) == Err::<Seq<char>, DecodeError>(e),
        },
{
    match unpad(plain) {
        Err(e) => Err(e),
        Ok(bytes) => match text_of(bytes) {
            Some(text) => Ok(text),
            None => Err(DecodeError::Text),
        },
    }
}

/// What derives the key of an encrypted store, and the vector that chains
/// the blocks of each of its values.
#[derive(Clone, Debug, PartialEq, Eq)]
pub struct CipherParams {
    pub passphrase: Vec<u8>,
    pub salt: Vec<u8>,
    pub rounds: u32,
    pub iv: Vec<u8>,
}

impl CipherParams {
    /// Whether a key can be derived: at least one round, and a vector of
    /// one block.
    pub open spec fn usable(&self) -> bool {
        self.rounds >= 1 && self.iv@.len() == BLOCK_LENGTH
    }

    /// The key bytes that these parameters derive.
    pub open spec fn key_bytes(&self) -> Seq<u8> {
        pbkdf2_hmac_sha1(self.passphrase@, self.salt@, self.rounds, BLOCK_LENGTH as nat)
    }
}

/// The key of one encrypted store together with its initialisation vector,
/// each one block long.
pub struct CipherKey {
    key: Vec<u8>,
    iv: Vec<u8>,
}

impl CipherKey {
    #[verifier::type_invariant]
    spec fn well_formed(self) -> bool {
        self.key@.len() == BLOCK_LENGTH && self.iv@.len() == BLOCK_LENGTH
    }

    /// The bytes of the key.
    pub closed spec fn key(&self) -> Seq<u8> {
        self.key@
    }

    /// The bytes of the initialisation vector.
    pub closed spec fn iv(&self) -> Seq<u8> {
        self.iv@
    }

    /// The bytes of the key.
    pub fn key_bytes(&self) -> (bytes: &Vec<u8>)
        ensures
            bytes@ == self.key(),
            bytes@.len() == BLOCK_LENGTH,
    {
        proof {
            use_type_invariant(self);
        }
        &self.key
    }

    /// The bytes of the initialisation vector.
    pub fn iv_bytes(&self) -> (bytes: &Vec<u8>)
        ensures
            bytes@ == self.iv(),
            bytes@.len() == BLOCK_LENGTH,
    {
        proof {
            use_type_invariant(self);
        }
        &self.iv
    }

    /// Derives the key of a store. There is none when the parameters ask
    /// for no round or give a vector that is not one block long.
    pub fn derive(params: &CipherParams) -> (derived: Option<CipherKey>)
        ensures
            derived is Some <==> params.usable(),
            derived is Some ==> derived->Some_0.key() == params.key_bytes(),
            derived is Some ==> derived->Some_0.iv() == params.iv@,
    {
        if params.rounds == 0 || params.iv.len() != BLOCK_LENGTH {
            return None;
        }
        let key = derive_bytes(
            params.passphrase.as_slice(),
            params.salt.as_slice(),
            params.rounds,
            BLOCK_LENGTH,
        );
        let iv = params.iv.clone();
        Some(CipherKey { key, iv })
    }

    /// Decrypts one stored value: drops the version tag, decrypts the
    /// blocks that follow, and opens the plain bytes as `open_plain` does.
    pub fn decrypt_value(&self, payload: &[u8]) -> (text: Result<String, DecodeError>)
        ensures
            match text {
                Ok(t) => spec_decrypt_value(self.key(), self.iv(), payload@) == Ok::<
                    Seq<char>,
                    DecodeError,
                >(t@),
                Err(e) => spec_decrypt_value(self.key(), self.iv(), payload@) == Err::<
                    Seq<char>,
                    DecodeError,
                >(e),
            },
    {
        proof {
            use_type_invariant(self);
        }
        let length: usize = payload.len();
        if length < TAG_LENGTH {
            return Err(DecodeError::Tag);
        }
        let blocks = slice_subrange(payload, TAG_LENGTH, length);
        match decrypt_blocks(self.key.as_slice(), self.iv.as_slice(), blocks) {
            Err(_) => Err(DecodeError::Cipher),
            Ok(plain) => open_plain(plain),
        }
    }
}

/// What a stored value decrypts to under a key and a vector. A value that
/// holds its tag alone has no plain bytes, hence no padding.
pub open spec fn spec_decrypt_value(key: Seq<u8>, iv: Seq<u8>, payload: Seq<u8>) -> Result<
    Seq<char>,
    DecodeError,
> {
    if payload.len() < TAG_LENGTH {
        Err(DecodeError::Tag)
    } else if payload.len() == TAG_LENGTH {
        Err(DecodeError::Padding)
    } else if (payload.len() - TAG_LENGTH) % (BLOCK_LENGTH as int) != 0 {
        Err(DecodeError::Cipher)
    } else {
        spec_open_plain(aes128_cbc_plain(key, iv, payload.skip(TAG_LENGTH as int)))
    }
}

/// `bytes` followed by the padding that fills their last block: as many
/// bytes as are missing, a whole block where none is, each holding that
/// number.
pub open spec fn spec_pad(bytes: Seq<u8>) -> Seq<u8> {
    let missing = BLOCK_LENGTH - bytes.len() % (BLOCK_LENGTH as nat);
    bytes + Seq::new(missing as nat, |i: int| missing as u8)
}

/// Padded bytes are a whole number of blocks, and removing their padding
/// gives the bytes back.
pub proof fn lemma_unpad_pad(bytes: Seq<u8>)
    ensures
        spec_pad(bytes).len() % (BLOCK_LENGTH as nat) == 0,
        spec_unpad(spec_pad(bytes)) == Ok::<Seq<u8>, DecodeError>(bytes),
{
    let missing = BLOCK_LENGTH - bytes.len() % (BLOCK_LENGTH as nat);
    let padded = spec_pad(bytes);
    assert(1 <= missing <= 16);
    assert(padded.len() == bytes.len() + missing);
    assert(padded.last() == missing as u8);
    assert(without_padding(padded) =~= bytes);
}

/// A text that was encoded and padded opens as itself.
pub proof fn lemma_open_padded_text(text: Seq<char>)
    ensures
        spec_open_plain(spec_pad(encode_utf8(text))) == Ok::<Seq<char>, DecodeError>(text),
{
    lemma_unpad_pad(encode_utf8(text));
    encode_utf8_valid_utf8(text);
    encode_utf8_decode_utf8(text);
}

/// A stored value whose blocks decrypt to an encoded and padded text
/// decrypts to that text.
pub proof fn lemma_padded_text_decrypts(
    key: Seq<u8>,
    iv: Seq<u8>,
    payload: Seq<u8>,
    text: Seq<char>,
)
    requires
        payload.len() > TAG_LENGTH,
        aes128_cbc_plain(key, iv, payload.skip(TAG_LENGTH as int)) == spec_pad(encode_utf8(text)),
        (payload.len() - TAG_LENGTH) % (BLOCK_LENGTH as int) == 0,
    ensures
        spec_decrypt_value(key, iv, payload) == Ok::<Seq<char>, DecodeError>(text),
{
    lemma_open_padded_text(text);
}

/// A stored value that holds its version tag and nothing else does not
/// decrypt, whatever the key.
pub proof fn lemma_tag_alone_fails(key: Seq<u8>, iv: Seq<u8>, payload: Seq<u8>)
    requires
        payload.len() == TAG_LENGTH,
    ensures
        spec_decrypt_value(key, iv, payload) == Err::<Seq<char>, DecodeError>(
            DecodeError::Padding,
        ),
{
}

/// Bytes whose last byte counts more padding than there are bytes do not
/// open, and neither do no bytes at all.
pub proof fn lemma_overlong_padding_fails(plain: Seq<u8>)
    requires
        plain.len() == 0 || plain.last() as nat > plain.len(),
    ensures
        spec_unpad(plain) == Err::<Seq<u8>, DecodeError>(DecodeError::Padding),
        spec_open_plain(plain) == Err::<Seq<char>, DecodeError>(DecodeError::Padding),
{
}

} // verus!

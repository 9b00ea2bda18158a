//! The ledger's payload type and its canonical byte encoding.
//!
//! A payload is encoded as one tag byte followed, for clipboard captures, by
//! the UTF-8 bytes of the captured text.  Decoding inverts the encoding
//! exactly; every byte sequence that is not the encoding of some payload is
//! rejected.

use vstd::prelude::*;

verus! {

use vstd::utf8::{valid_utf8, decode_utf8, encode_utf8, encode_utf8_valid_utf8,
    encode_utf8_decode_utf8};
use vstd::string::StringSliceAdditionalSpecFns;
use vstd::slice::slice_subrange;

/// A captured event, or one of the two failure sentinels that record a
/// cryptographic operation going wrong as an ordinary log entry.
#[derive(Debug, Clone, PartialEq)]
pub enum LedgerData {
    /// Text captured from the clipboard.
    ClipboardCopy(String),
    /// A previous attempt to encrypt an entry failed.
    EncryptionFailed,
    /// A previous attempt to decrypt an entry failed.
    DecryptionFailed,
}

/// Mathematical model of a [`LedgerData`] payload.
#[verifier::ext_equal]
pub enum LedgerDataModel {
    ClipboardCopy(Seq<char>),
    EncryptionFailed,
    DecryptionFailed,
}

impl View for LedgerData {
    type V = LedgerDataModel;

    open spec fn view(&self) -> LedgerDataModel {
        match self {
            LedgerData::ClipboardCopy(s) => LedgerDataModel::ClipboardCopy(s@),
            LedgerData::EncryptionFailed => LedgerDataModel::EncryptionFailed,
            LedgerData::DecryptionFailed => LedgerDataModel::DecryptionFailed,
        }
    }
}

/// Two payloads are of the same kind when they carry the same variant tag,
/// whatever value the variant holds.
pub open spec fn same_kind(a: LedgerDataModel, b: LedgerDataModel) -> bool {
    match (a, b) {
        (LedgerDataModel::ClipboardCopy(_), LedgerDataModel::ClipboardCopy(_)) => true,
        (LedgerDataModel::EncryptionFailed, LedgerDataModel::EncryptionFailed) => true,
        (LedgerDataModel::DecryptionFailed, LedgerDataModel::DecryptionFailed) => true,
        _ => false,
    }
}

/// Tag byte that opens the encoding of a clipboard capture.
pub const TAG_CLIPBOARD_COPY: u8 = 0;

/// Tag byte that encodes the encryption-failure sentinel.
pub const TAG_ENCRYPTION_FAILED: u8 = 1;

/// Tag byte that encodes the decryption-failure sentinel.
pub const TAG_DECRYPTION_FAILED: u8 = 2;

/// The canonical encoding of a payload: a tag byte, then for clipboard
/// captures the UTF-8 bytes of the text.
pub open spec fn encode_spec(m: LedgerDataModel) -> Seq<u8> {
    match m {
        LedgerDataModel::ClipboardCopy(s) => seq![TAG_CLIPBOARD_COPY] + encode_utf8(s),
        LedgerDataModel::EncryptionFailed => seq![TAG_ENCRYPTION_FAILED],
        LedgerDataModel::DecryptionFailed => seq![TAG_DECRYPTION_FAILED],
    }
}

/// The payload a byte sequence encodes, or `None` when it encodes nothing.
pub open spec fn decode_spec(b: Seq<u8>) -> Option<LedgerDataModel> {
    if b.len() == 0 {
        None
    } else if b[0] == TAG_CLIPBOARD_COPY {
        if valid_utf8(b.drop_first()) {
            Some(LedgerDataModel::ClipboardCopy(decode_utf8(b.drop_first())))
        } else {
            None
        }
    } else if b[0] == TAG_ENCRYPTION_FAILED {
        if b.len() == 1 {
            Some(LedgerDataModel::EncryptionFailed)
        } else {
            None
        }
    } else if b[0] == TAG_DECRYPTION_FAILED {
        if b.len() == 1 {
            Some(LedgerDataModel::DecryptionFailed)
        } else {
            None
        }
    } else {
        None
    }
}

/// Decoding inverts encoding: every payload comes back from its own encoding.
pub proof fn lemma_codec_round_trip(m: LedgerDataModel)
    ensures
        decode_spec(encode_spec(m)) == Some(m),
{
    match m {
        LedgerDataModel::ClipboardCopy(s) => {
            encode_utf8_valid_utf8(s);
            encode_utf8_decode_utf8(s);
            assert(encode_spec(m).drop_first() =~= encode_utf8(s));
        },
        LedgerDataModel::EncryptionFailed => {},
        LedgerDataModel::DecryptionFailed => {},
    }
}

/// Relies on `String::from_utf8`: returns `Ok` exactly when the bytes are
/// valid UTF-8, and then the string's characters decode those bytes.
#[verifier::external_body]
fn string_from_utf8(v: Vec<u8>) -> (r: Option<String>)
    ensures
        r is Some <==> valid_utf8(v@),
        r matches Some(s) ==> s@ == decode_utf8(v@),
{
    String::from_utf8(v).ok()
}

impl LedgerData {

    /// An equal copy of this payload.
    pub fn duplicate(&self) -> (r: Self)
        ensures
            r@ == self@,
    {
        match self {
            LedgerData::ClipboardCopy(s) => LedgerData::ClipboardCopy(s.clone()),
            LedgerData::EncryptionFailed => LedgerData::EncryptionFailed,
            LedgerData::DecryptionFailed => LedgerData::DecryptionFailed,
        }
    }

    /// Encode this payload into its canonical byte form.
    pub fn encode(&self) -> (r: Vec<u8>)
        ensures
            r@ == encode_spec(self@),
    {
        match self {
            LedgerData::ClipboardCopy(s) => {
                let mut r: Vec<u8> = Vec::new();
                r.push(TAG_CLIPBOARD_COPY);
                let bytes: &[u8] = s.as_str().as_bytes();
                let n: usize = bytes.len();
                let mut i: usize = 0;
                proof {
                    assert(r@ =~= seq![TAG_CLIPBOARD_COPY] + bytes@.take(0));
                }
                while i < n
                    invariant
                        i <= n,
                        n == bytes@.len(),
                        r@ == seq![TAG_CLIPBOARD_COPY] + bytes@.take(i as int),
                    decreases n - i,
                {
                    r.push(*vstd::slice::slice_index_get(bytes, i));
                    proof {
                        assert(bytes@.take(i + 1) =~= bytes@.take(i as int).push(bytes@[i as int]));
                        assert(r@ =~= seq![TAG_CLIPBOARD_COPY] + bytes@.take(i + 1));
                    }
                    i += 1;
                }
                proof {
                    assert(bytes@.take(n as int) =~= bytes@);
                }
                r
            },
            LedgerData::EncryptionFailed => {
                let mut r: Vec<u8> = Vec::new();
                r.push(TAG_ENCRYPTION_FAILED);
                proof {
                    assert(r@ =~= seq![TAG_ENCRYPTION_FAILED]);
                }
                r
            },
            LedgerData::DecryptionFailed => {
                let mut r: Vec<u8> = Vec::new();
                r.push(TAG_DECRYPTION_FAILED);
                proof {
                    assert(r@ =~= seq![TAG_DECRYPTION_FAILED]);
                }
                r
            },
        }
    }

    /// Decode a payload from its canonical byte form; rejects every byte
    /// sequence that no payload encodes to.
    pub fn decode(b: &[u8]) -> (r: Option<LedgerData>)
        ensures
            match decode_spec(b@) {
                Some(m) => r matches Some(d) && d@ == m,
                None => r is None,
            },
    {
        if b.len() == 0 {
            return None;
        }
        let tag: u8 = *vstd::slice::slice_index_get(b, 0);
        if tag == TAG_CLIPBOARD_COPY {
            let body: &[u8] = slice_subrange(b, 1, b.len());
            proof {
                assert(body@ =~= b@.drop_first());
            }
            let text: Vec<u8> = vstd::slice::slice_to_vec(body);
            match string_from_utf8(text) {
                Some(s) => Some(LedgerData::ClipboardCopy(s)),
                None => None,
            }
        } else if tag == TAG_ENCRYPTION_FAILED && b.len() == 1 {
            Some(LedgerData::EncryptionFailed)
        } else if tag == TAG_DECRYPTION_FAILED && b.len() == 1 {
            Some(LedgerData::DecryptionFailed)
        } else {
            None
        }
    }
}

} // verus!

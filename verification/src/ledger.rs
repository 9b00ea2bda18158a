//! The ledger: timestamped entries whose payloads move between a decrypted
//! and an encrypted state, with timestamp-based synchronisation.
//!
//! Encrypting and decrypting are total: when a cryptographic step fails, the
//! failure is recorded as an ordinary sentinel payload instead of an error,
//! so one bad entry never prevents recovery of the rest of the ledger.
//!
//! The plaintext sealed inside an encrypted entry is framed as an 8-byte
//! little-endian length followed by exactly that many bytes of the payload's
//! canonical encoding; the frame is bounds-checked on the way back out.

use vstd::prelude::*;

verus! {

use crate::codec::{LedgerData, LedgerDataModel, encode_spec, decode_spec, lemma_codec_round_trip,
    same_kind};
use std::collections::HashSet;
use crate::crypto::{Cipher, seal_of, open_of, fresh_nonce, NONCE_LEN, TAG_LEN,
    MAX_PLAINTEXT_LEN};
use vstd::bytes::{spec_u64_to_le_bytes, spec_u64_from_le_bytes, u64_to_le_bytes, u64_from_le_bytes,
    lemma_auto_spec_u64_to_from_le_bytes};
use vstd::slice::{slice_to_vec, slice_subrange};

broadcast use vstd::std_specs::hash::group_hash_axioms;

/// An entry's payload, in exactly one of two states: sealed ciphertext with
/// its nonce, or a decrypted payload value.
///
/// The pair of an empty ciphertext and an empty nonce is reserved: it marks
/// an entry whose encryption failed.
#[derive(Debug, Clone, PartialEq)]
pub enum Data {
    Encrypted { data: Vec<u8>, nonce: Vec<u8> },
    Decrypted { data: LedgerData },
}

/// Mathematical model of a [`Data`] value.
#[verifier::ext_equal]
pub enum DataModel {
    Encrypted { data: Seq<u8>, nonce: Seq<u8> },
    Decrypted { data: LedgerDataModel },
}

impl View for Data {
    type V = DataModel;

    open spec fn view(&self) -> DataModel {
        match self {
            Data::Encrypted { data, nonce } => DataModel::Encrypted { data: data@, nonce: nonce@ },
            Data::Decrypted { data } => DataModel::Decrypted { data: data@ },
        }
    }
}

/// The framed plaintext that is sealed: an 8-byte little-endian length,
/// then the payload's canonical encoding.
pub open spec fn frame_spec(payload: Seq<u8>) -> Seq<u8> {
    spec_u64_to_le_bytes(payload.len() as u64) + payload
}

/// The payload an opened plaintext yields: the frame is bounds-checked, the
/// framed bytes decoded, and any malformation folds into the
/// decryption-failure sentinel.
pub open spec fn unframe_spec(plain: Seq<u8>) -> LedgerDataModel {
    if plain.len() < 8 {
        LedgerDataModel::DecryptionFailed
    } else {
        let l = spec_u64_from_le_bytes(plain.take(8)) as int;
        if 8 + l > plain.len() {
            LedgerDataModel::DecryptionFailed
        } else {
            match decode_spec(plain.subrange(8, 8 + l)) {
                Some(m) => m,
                None => LedgerDataModel::DecryptionFailed,
            }
        }
    }
}

/// What decrypting a value under a key yields.  Decrypted values pass
/// through unchanged; the reserved empty pair recalls a failed encryption;
/// everything else is opened and unframed, with authentication failure
/// folding into the decryption-failure sentinel.
pub open spec fn data_decrypt_model(key: Seq<u8>, d: DataModel) -> DataModel {
    match d {
        DataModel::Decrypted { .. } => d,
        DataModel::Encrypted { data, nonce } => {
            if data.len() == 0 && nonce.len() == 0 {
                DataModel::Decrypted { data: LedgerDataModel::EncryptionFailed }
            } else if nonce.len() != NONCE_LEN {
                DataModel::Decrypted { data: LedgerDataModel::DecryptionFailed }
            } else {
                match open_of(key, nonce, data) {
                    Some(plain) => DataModel::Decrypted { data: unframe_spec(plain) },
                    None => DataModel::Decrypted { data: LedgerDataModel::DecryptionFailed },
                }
            }
        },
    }
}

/// What encrypting a value under a key produces: an already-encrypted
/// value passes through unchanged; a decrypted payload becomes the seal of
/// its framed encoding — the tag makes it longer than the frame, so never
/// the reserved empty pair — under a nonce of the algorithm's width.  The
/// reserved empty pair records a sealing failure, which the cipher admits
/// only when the framed encoding reaches its plaintext limit.
pub open spec fn data_encrypt_post(key: Seq<u8>, d: DataModel, r: DataModel) -> bool {
    match d {
        DataModel::Encrypted { .. } => r == d,
        DataModel::Decrypted { data: payload } => {
            ||| (8 + encode_spec(payload).len() >= MAX_PLAINTEXT_LEN && r == (
            DataModel::Encrypted { data: Seq::<u8>::empty(), nonce: Seq::<u8>::empty() }))
            ||| (r matches DataModel::Encrypted { data, nonce } && nonce.len() == NONCE_LEN
                && data == seal_of(key, nonce, frame_spec(encode_spec(payload))) && data.len() == 8
                + encode_spec(payload).len() + TAG_LEN)
        },
    }
}

/// Unframing inverts framing: a framed payload comes back as whatever its
/// bytes decode to.
pub proof fn lemma_frame_round_trip(payload: Seq<u8>)
    requires
        payload.len() <= u64::MAX,
    ensures
        unframe_spec(frame_spec(payload)) == match decode_spec(payload) {
            Some(m) => m,
            None => LedgerDataModel::DecryptionFailed,
        },
{
    lemma_auto_spec_u64_to_from_le_bytes();
    assert(frame_spec(payload).take(8) =~= spec_u64_to_le_bytes(payload.len() as u64));
    assert(frame_spec(payload).subrange(8, 8 + payload.len() as int) =~= payload);
}

/// Every payload comes back unchanged from framing its canonical encoding
/// and unframing the result.
pub proof fn lemma_payload_round_trip(m: LedgerDataModel)
    requires
        encode_spec(m).len() <= u64::MAX,
    ensures
        unframe_spec(frame_spec(encode_spec(m))) == m,
{
    lemma_frame_round_trip(encode_spec(m));
    lemma_codec_round_trip(m);
}

/// Frame a payload encoding for sealing.
fn frame_payload(payload: &Vec<u8>) -> (r: Vec<u8>)
    ensures
        r@ == frame_spec(payload@),
{
    let n: usize = payload.len();
    let mut r: Vec<u8> = u64_to_le_bytes(n as u64);
    let mut i: usize = 0;
    proof {
        assert(r@ =~= spec_u64_to_le_bytes(payload@.len() as u64) + payload@.take(0));
    }
    while i < n
        invariant
            i <= n,
            n == payload@.len(),
            r@ == spec_u64_to_le_bytes(payload@.len() as u64) + payload@.take(i as int),
        decreases n - i,
    {
        r.push(payload[i]);
        proof {
            assert(r@ =~= spec_u64_to_le_bytes(payload@.len() as u64) + payload@.take(i + 1));
        }
        i += 1;
    }
    proof {
        assert(payload@.take(n as int) =~= payload@);
    }
    r
}

/// Recover a payload from an opened plaintext, folding every malformation
/// into the decryption-failure sentinel.
fn unframe_plain(plain: &Vec<u8>) -> (r: LedgerData)
    ensures
        r@ == unframe_spec(plain@),
{
    if plain.len() < 8 {
        return LedgerData::DecryptionFailed;
    }
    let len_bytes: &[u8] = slice_subrange(plain.as_slice(), 0, 8);
    proof {
        assert(len_bytes@ =~= plain@.take(8));
    }
    let l: u64 = u64_from_le_bytes(len_bytes);
    let remainder: usize = plain.len() - 8;
    if l > remainder as u64 {
        return LedgerData::DecryptionFailed;
    }
    let body: &[u8] = slice_subrange(plain.as_slice(), 8, 8 + l as usize);
    proof {
        assert(body@ =~= plain@.subrange(8, 8 + l as int));
    }
    match LedgerData::decode(body) {
        Some(d) => d,
        None => LedgerData::DecryptionFailed,
    }
}

impl Data {
    /// Wrap already-sealed bytes and their nonce.
    pub fn new_encrypted(data: Vec<u8>, nonce: Vec<u8>) -> (r: Self)
        ensures
            r@ == (DataModel::Encrypted { data: data@, nonce: nonce@ }),
    {
        Self::Encrypted { data, nonce }
    }

    /// Wrap a decrypted payload.
    pub fn new_decrypted(data: LedgerData) -> (r: Self)
        ensures
            r@ == (DataModel::Decrypted { data: data@ }),
    {
        Self::Decrypted { data }
    }

    /// An equal copy of this value.
    pub fn duplicate(&self) -> (r: Self)
        ensures
            r@ == self@,
    {
        match self {
            Data::Encrypted { data, nonce } => Data::Encrypted {
                data: slice_to_vec(data.as_slice()),
                nonce: slice_to_vec(nonce.as_slice()),
            },
            Data::Decrypted { data } => Data::Decrypted { data: data.duplicate() },
        }
    }

    /// Encrypt this value under the caller's cipher.  Already-encrypted
    /// values are returned unchanged; a decrypted payload is serialized,
    /// framed, and sealed under a nonce drawn fresh for this one call.
    /// Sealing is owed success below the cipher's plaintext limit; beyond
    /// it, the failure is recorded as the reserved empty pair.
    pub fn encrypt(&self, cipher: &Cipher) -> (r: Self)
        requires
            cipher.wf(),
        ensures
            data_encrypt_post(cipher@, self@, r@),
            r@ is Encrypted,
            self@ is Encrypted ==> r@ == self@,
    {
        match self {
            Data::Encrypted { .. } => self.duplicate(),
            Data::Decrypted { data } => {
                let nonce = fresh_nonce();
                let payload = data.encode();
                let framed = frame_payload(&payload);
                proof {
                    lemma_auto_spec_u64_to_from_le_bytes();
                }
                match cipher.seal(nonce.as_slice(), framed.as_slice()) {
                    Some(cipherdata) => Data::Encrypted { data: cipherdata, nonce },
                    None => {
                        let r = Data::Encrypted { data: Vec::new(), nonce: Vec::new() };
                        proof {
                            assert(r@ == (DataModel::Encrypted {
                                data: Seq::<u8>::empty(),
                                nonce: Seq::<u8>::empty(),
                            }));
                        }
                        r
                    },
                }
            },
        }
    }

    /// Decrypt this value under the caller's cipher.  Decrypted values are
    /// returned unchanged; the reserved empty pair recalls a failed
    /// encryption; any authentication, framing or decoding failure folds
    /// into the decryption-failure sentinel.  A value sealed under the same
    /// key comes back as exactly the payload that was sealed.
    pub fn decrypt(&self, cipher: &Cipher) -> (r: Self)
        requires
            cipher.wf(),
        ensures
            r@ == data_decrypt_model(cipher@, self@),
            r@ is Decrypted,
            self@ is Decrypted ==> r@ == self@,
            forall|p: LedgerDataModel|
                (self@ matches DataModel::Encrypted { data, nonce } && nonce.len() == NONCE_LEN
                    && encode_spec(p).len() <= u64::MAX
                    && data == seal_of(cipher@, nonce, frame_spec(#[trigger] encode_spec(p))))
                    ==> r@ == (DataModel::Decrypted { data: p }),
    {
        match self {
            Data::Decrypted { .. } => self.duplicate(),
            Data::Encrypted { data, nonce } => {
                if data.len() == 0 && nonce.len() == 0 {
                    return Data::Decrypted { data: LedgerData::EncryptionFailed };
                }
                if nonce.len() != NONCE_LEN {
                    return Data::Decrypted { data: LedgerData::DecryptionFailed };
                }
                match cipher.open(nonce.as_slice(), data.as_slice()) {
                    Some(plain) => {
                        let r = Data::Decrypted { data: unframe_plain(&plain) };
                        proof {
                            assert forall|p: LedgerDataModel|
                                (encode_spec(p).len() <= u64::MAX && data@ == seal_of(
                                    cipher@,
                                    nonce@,
                                    frame_spec(#[trigger] encode_spec(p)),
                                )) implies r@ == (DataModel::Decrypted { data: p }) by {
                                lemma_payload_round_trip(p);
                            }
                        }
                        r
                    },
                    None => Data::Decrypted { data: LedgerData::DecryptionFailed },
                }
            },
        }
    }
}

/// Relies on `time::OffsetDateTime::now_utc`: the current wall-clock time
/// as nanoseconds since the Unix epoch; nothing is assumed of its value.
#[verifier::external_body]
fn now_unix_nanos() -> i128 {
    time::OffsetDateTime::now_utc().unix_timestamp_nanos()
}

/// A timestamped entry; immutable once constructed.
#[derive(Debug, Clone, PartialEq)]
pub struct LedgerEntry {
    pub timestamp: i128,
    pub data: Data,
}

/// Mathematical model of a [`LedgerEntry`].
#[verifier::ext_equal]
pub struct LedgerEntryModel {
    pub timestamp: i128,
    pub data: DataModel,
}

impl View for LedgerEntry {
    type V = LedgerEntryModel;

    open spec fn view(&self) -> LedgerEntryModel {
        LedgerEntryModel { timestamp: self.timestamp, data: self.data@ }
    }
}

impl LedgerEntry {
    /// Build an entry from an explicit timestamp and payload.
    pub fn new(timestamp: i128, data: Data) -> (r: Self)
        ensures
            r@ == (LedgerEntryModel { timestamp, data: data@ }),
    {
        Self { timestamp, data }
    }

    /// Build an entry stamped with the current wall-clock time.
    pub fn new_with_current_time(data: Data) -> (r: Self)
        ensures
            r@.data == data@,
    {
        Self { timestamp: now_unix_nanos(), data }
    }

    /// An equal copy of this entry.
    pub fn duplicate(&self) -> (r: Self)
        ensures
            r@ == self@,
    {
        Self { timestamp: self.timestamp, data: self.data.duplicate() }
    }

    /// Encrypt the payload, keeping the timestamp unchanged.
    pub fn encrypt(&self, cipher: &Cipher) -> (r: Self)
        requires
            cipher.wf(),
        ensures
            r@.timestamp == self@.timestamp,
            data_encrypt_post(cipher@, self@.data, r@.data),
            self@.data is Encrypted ==> r@ == self@,
    {
        Self { timestamp: self.timestamp, data: self.data.encrypt(cipher) }
    }

    /// Decrypt the payload, keeping the timestamp unchanged.
    pub fn decrypt(&self, cipher: &Cipher) -> (r: Self)
        requires
            cipher.wf(),
        ensures
            r@.timestamp == self@.timestamp,
            r@.data == data_decrypt_model(cipher@, self@.data),
            self@.data is Decrypted ==> r@ == self@,
            forall|p: LedgerDataModel|
                (self@.data matches DataModel::Encrypted { data, nonce } && nonce.len()
                    == NONCE_LEN && encode_spec(p).len() <= u64::MAX && data == seal_of(
                    cipher@,
                    nonce,
                    frame_spec(#[trigger] encode_spec(p)),
                )) ==> r@.data == (DataModel::Decrypted { data: p }),
    {
        Self { timestamp: self.timestamp, data: self.data.decrypt(cipher) }
    }
}

/// Decrypting is idempotent: decrypting what a decryption produced changes
/// nothing, since every decryption yields a decrypted value and decrypted
/// values pass through unchanged.
pub proof fn lemma_decrypt_idempotent(key: Seq<u8>, d: DataModel)
    ensures
        data_decrypt_model(key, data_decrypt_model(key, d)) == data_decrypt_model(key, d),
{
}

/// Encrypting is idempotent over state: an already-encrypted value passes
/// through every further encryption pass unchanged.
pub proof fn lemma_encrypt_idempotent(key: Seq<u8>, x: DataModel, r1: DataModel, r2: DataModel)
    requires
        x is Encrypted,
        data_encrypt_post(key, x, r1),
        data_encrypt_post(key, r1, r2),
    ensures
        r1 == x,
        r2 == x,
{
}

/// The model of a sequence of concrete entries.
pub open spec fn entries_model(es: Seq<LedgerEntry>) -> Seq<LedgerEntryModel> {
    Seq::new(es.len(), |i: int| es[i]@)
}

/// The timestamps of a ledger's entries, in ledger order.
pub open spec fn timestamps_of(s: Seq<LedgerEntryModel>) -> Seq<i128> {
    Seq::new(s.len(), |i: int| s[i].timestamp)
}

/// The entries of `s` whose timestamp does not occur in `known`, in ledger
/// order.  Membership is by timestamp alone; contents are not compared.
pub open spec fn missing_entries(s: Seq<LedgerEntryModel>, known: Seq<i128>) -> Seq<
    LedgerEntryModel,
>
    decreases s.len(),
{
    if s.len() == 0 {
        Seq::empty()
    } else {
        let rest = missing_entries(s.drop_last(), known);
        if known.contains(s.last().timestamp) {
            rest
        } else {
            rest.push(s.last())
        }
    }
}

/// An entry answers a kind query when its payload is decrypted and carries
/// the queried variant tag; encrypted entries are invisible to the query.
pub open spec fn entry_matches(e: LedgerEntryModel, kind: LedgerDataModel) -> bool {
    e.data matches DataModel::Decrypted { data } && same_kind(data, kind)
}

/// The position of the last entry that answers a kind query, scanning from
/// the most recently appended entry backward.
pub open spec fn last_match(s: Seq<LedgerEntryModel>, kind: LedgerDataModel) -> Option<int>
    decreases s.len(),
{
    if s.len() == 0 {
        None
    } else if entry_matches(s.last(), kind) {
        Some(s.len() - 1)
    } else {
        last_match(s.drop_last(), kind)
    }
}

/// What the last-match position means: the entry there answers the query
/// and nothing after it does; `None` means nothing answers at all. (The
/// general shape of the lookup guarantee.)
pub proof fn lemma_last_match_props(s: Seq<LedgerEntryModel>, kind: LedgerDataModel)
    ensures
        match last_match(s, kind) {
            Some(i) => 0 <= i < s.len() && entry_matches(s[i], kind) && forall|j: int|
                i < j < s.len() ==> !entry_matches(#[trigger] s[j], kind),
            None => forall|j: int| 0 <= j < s.len() ==> !entry_matches(#[trigger] s[j], kind),
        },
    decreases s.len(),
{
    if s.len() > 0 && !entry_matches(s.last(), kind) {
        lemma_last_match_props(s.drop_last(), kind);
        assert(forall|j: int|
            0 <= j < s.len() - 1 ==> #[trigger] s[j] == s.drop_last()[j]);
    }
}

/// The per-entry decryption of a whole ledger: each payload is transformed
/// by [`data_decrypt_model`], each timestamp kept, and the order preserved.
pub open spec fn ledger_decrypt_model(key: Seq<u8>, s: Seq<LedgerEntryModel>) -> Seq<
    LedgerEntryModel,
> {
    Seq::new(
        s.len(),
        |i: int|
            LedgerEntryModel { timestamp: s[i].timestamp, data: data_decrypt_model(key, s[i].data) },
    )
}

/// An ordered sequence of entries.  Insertion order is preserved, but no
/// chronological ordering or timestamp uniqueness is enforced.
#[derive(Debug, Clone, PartialEq)]
pub struct Ledger {
    pub entries: Vec<LedgerEntry>,
}

impl View for Ledger {
    type V = Seq<LedgerEntryModel>;

    open spec fn view(&self) -> Seq<LedgerEntryModel> {
        entries_model(self.entries@)
    }
}

impl Ledger {
    /// Whether the ledger holds no entries.
    pub fn is_empty(&self) -> (r: bool)
        ensures
            r == (self@.len() == 0),
    {
        self.entries.is_empty()
    }

    /// The number of entries.
    pub fn len(&self) -> (r: usize)
        ensures
            r == self@.len(),
    {
        self.entries.len()
    }

    /// Append one entry.
    pub fn push_back(&mut self, entry: LedgerEntry)
        ensures
            final(self)@ == old(self)@.push(entry@),
    {
        let ghost e = entry@;
        self.entries.push(entry);
        proof {
            assert(self@ =~= old(self)@.push(e));
        }
    }

    /// Append all of another ledger's entries, in their order, after this
    /// ledger's own.
    pub fn extend(&mut self, other: Ledger)
        ensures
            final(self)@ == old(self)@ + other@,
    {
        let ghost om = other@;
        let mut o = other;
        self.entries.append(&mut o.entries);
        proof {
            assert(self@ =~= old(self)@ + om);
        }
    }

    /// The timestamps of all entries, in ledger order; the basis of
    /// synchronisation.
    pub fn export_timestamps(&self) -> (r: Vec<i128>)
        ensures
            r@ == timestamps_of(self@),
    {
        let n: usize = self.entries.len();
        let mut out: Vec<i128> = Vec::new();
        let mut i: usize = 0;
        while i < n
            invariant
                i <= n,
                n == self.entries@.len(),
                out@.len() == i,
                forall|j: int| 0 <= j < i ==> out@[j] == self@[j].timestamp,
            decreases n - i,
        {
            out.push(self.entries[i].timestamp);
            i += 1;
        }
        proof {
            assert(out@ =~= timestamps_of(self@));
        }
        out
    }

    /// The entries whose timestamp is absent from the peer's list, as a new
    /// ledger in this ledger's order.  Two entries that share a timestamp
    /// count as the same entry for this purpose.
    pub fn fetch_missing(&self, other: &[i128]) -> (r: Self)
        ensures
            r@ == missing_entries(self@, other@),
    {
        let m: usize = other.len();
        let mut known: HashSet<i128> = HashSet::new();
        let mut i: usize = 0;
        while i < m
            invariant
                i <= m,
                m == other@.len(),
                forall|x: i128| known@.contains(x) <==> other@.take(i as int).contains(x),
            decreases m - i,
        {
            broadcast use vstd::seq_lib::group_seq_properties;

            known.insert(*vstd::slice::slice_index_get(other, i));
            proof {
                assert(other@.take(i + 1) =~= other@.take(i as int).push(other@[i as int]));
            }
            i += 1;
        }
        proof {
            assert(other@.take(m as int) =~= other@);
        }
        let n: usize = self.entries.len();
        let mut out: Vec<LedgerEntry> = Vec::new();
        let mut i: usize = 0;
        proof {
            assert(entries_model(out@) =~= missing_entries(self@.take(0), other@));
        }
        while i < n
            invariant
                i <= n,
                n == self.entries@.len(),
                forall|x: i128| known@.contains(x) <==> other@.contains(x),
                entries_model(out@) == missing_entries(self@.take(i as int), other@),
            decreases n - i,
        {
            let e = &self.entries[i];
            let is_known = known.contains(&e.timestamp);
            proof {
                assert(self@.take(i + 1).drop_last() =~= self@.take(i as int));
                assert(self@.take(i + 1).last() == self@[i as int]);
            }
            if !is_known {
                out.push(e.duplicate());
            }
            proof {
                assert(entries_model(out@) =~= missing_entries(self@.take(i + 1), other@));
            }
            i += 1;
        }
        proof {
            assert(self@.take(n as int) =~= self@);
        }
        Ledger { entries: out }
    }

    /// The most recently appended entry whose decrypted payload carries the
    /// same variant tag as `data_type`, ignoring the carried value and every
    /// entry still in the encrypted state.
    pub fn get_last_entry_by_type(&self, data_type: &LedgerData) -> (r: Option<&LedgerEntry>)
        ensures
            match last_match(self@, data_type@) {
                Some(i) => r matches Some(e) && e@ == self@[i],
                None => r is None,
            },
    {
        let mut j: usize = self.entries.len();
        proof {
            assert(self@.take(j as int) =~= self@);
        }
        while j > 0
            invariant
                j <= self.entries@.len(),
                last_match(self@, data_type@) == last_match(self@.take(j as int), data_type@),
            decreases j,
        {
            j -= 1;
            let e = &self.entries[j];
            proof {
                assert(self@.take(j + 1).drop_last() =~= self@.take(j as int));
                assert(self@.take(j + 1).last() == self@[j as int]);
            }
            if entry_kind_matches(e, data_type) {
                return Some(e);
            }
        }
        None
    }

    /// Like [`Ledger::get_last_entry_by_type`], but handing back the
    /// matching entry's timestamp and decrypted payload directly.
    pub fn get_last_entry_by_type_alt(&self, data_type: &LedgerData) -> (r: Option<
        (&i128, &LedgerData),
    >)
        ensures
            match last_match(self@, data_type@) {
                Some(i) => r matches Some(p) && *p.0 == self@[i].timestamp && self@[i].data
                    == (DataModel::Decrypted { data: p.1@ }),
                None => r is None,
            },
    {
        proof {
            lemma_last_match_props(self@, data_type@);
        }
        match self.get_last_entry_by_type(data_type) {
            Some(last) => match &last.data {
                Data::Decrypted { data } => Some((&last.timestamp, data)),
                Data::Encrypted { .. } => {
                    // A matched entry is decrypted by construction.
                    proof {
                        assert(false);
                    }
                    None
                },
            },
            None => None,
        }
    }

    /// Encrypt every entry under the caller's cipher, preserving order and
    /// timestamps; entries already encrypted pass through unchanged.
    pub fn encrypt(&self, cipher: &Cipher) -> (r: Self)
        requires
            cipher.wf(),
        ensures
            r@.len() == self@.len(),
            forall|i: int|
                0 <= i < self@.len() ==> (#[trigger] r@[i]).timestamp == self@[i].timestamp
                    && data_encrypt_post(cipher@, self@[i].data, r@[i].data)
                    && r@[i].data is Encrypted,
    {
        let n: usize = self.entries.len();
        let mut out: Vec<LedgerEntry> = Vec::new();
        let mut i: usize = 0;
        while i < n
            invariant
                i <= n,
                n == self.entries@.len(),
                cipher.wf(),
                out@.len() == i,
                forall|j: int|
                    0 <= j < i ==> (#[trigger] out@[j]@).timestamp == self@[j].timestamp
                        && data_encrypt_post(cipher@, self@[j].data, out@[j]@.data),
            decreases n - i,
        {
            out.push(self.entries[i].encrypt(cipher));
            i += 1;
        }
        Ledger { entries: out }
    }

    /// Decrypt every entry under the caller's cipher, preserving order and
    /// timestamps.  An entry that was sealed under the same key comes back
    /// as exactly the payload that was sealed into it.
    pub fn decrypt(&self, cipher: &Cipher) -> (r: Self)
        requires
            cipher.wf(),
        ensures
            r@ == ledger_decrypt_model(cipher@, self@),
            forall|i: int, p: LedgerDataModel|
                (0 <= i < self@.len() && (self@[i].data matches DataModel::Encrypted {
                    data,
                    nonce,
                } && nonce.len() == NONCE_LEN && encode_spec(p).len() <= u64::MAX && data
                    == seal_of(cipher@, nonce, frame_spec(#[trigger] encode_spec(p))))) ==> (
                #[trigger] r@[i]).data == (DataModel::Decrypted { data: p }),
    {
        let n: usize = self.entries.len();
        let mut out: Vec<LedgerEntry> = Vec::new();
        let mut i: usize = 0;
        while i < n
            invariant
                i <= n,
                n == self.entries@.len(),
                cipher.wf(),
                out@.len() == i,
                forall|j: int|
                    0 <= j < i ==> #[trigger] out@[j]@ == (LedgerEntryModel {
                        timestamp: self@[j].timestamp,
                        data: data_decrypt_model(cipher@, self@[j].data),
                    }),
                forall|j: int, p: LedgerDataModel|
                    (0 <= j < i && (self@[j].data matches DataModel::Encrypted {
                        data,
                        nonce,
                    } && nonce.len() == NONCE_LEN && encode_spec(p).len() <= u64::MAX && data
                        == seal_of(cipher@, nonce, frame_spec(#[trigger] encode_spec(p))))) ==> (
                    #[trigger] out@[j]@).data == (DataModel::Decrypted { data: p }),
            decreases n - i,
        {
            out.push(self.entries[i].decrypt(cipher));
            i += 1;
        }
        proof {
            assert(entries_model(out@) =~= ledger_decrypt_model(cipher@, self@));
        }
        Ledger { entries: out }
    }
}

/// Entries already known cost nothing: when every timestamp of `s` occurs
/// in `known`, nothing is missing.
proof fn lemma_missing_all_known(s: Seq<LedgerEntryModel>, known: Seq<i128>)
    requires
        forall|i: int| 0 <= i < s.len() ==> known.contains(#[trigger] s[i].timestamp),
    ensures
        missing_entries(s, known) == Seq::<LedgerEntryModel>::empty(),
    decreases s.len(),
{
    if s.len() > 0 {
        assert(forall|i: int|
            0 <= i < s.len() - 1 ==> #[trigger] s.drop_last()[i] == s[i]);
        lemma_missing_all_known(s.drop_last(), known);
        assert(known.contains(s[s.len() - 1].timestamp));
    }
}

/// Sync closure: a ledger asked for the entries missing against its own
/// timestamp export hands back nothing.
pub proof fn lemma_sync_closure(s: Seq<LedgerEntryModel>)
    ensures
        missing_entries(s, timestamps_of(s)) == Seq::<LedgerEntryModel>::empty(),
{
    assert forall|i: int| 0 <= i < s.len() implies timestamps_of(s).contains(
        #[trigger] s[i].timestamp,
    ) by {
        assert(timestamps_of(s)[i] == s[i].timestamp);
    }
    lemma_missing_all_known(s, timestamps_of(s));
}

/// Sync completeness: a ledger that extends another by two entries with
/// timestamps the other lacks hands back exactly those two entries, in
/// order, against the other's timestamp export.
pub proof fn lemma_sync_completeness(
    s: Seq<LedgerEntryModel>,
    e1: LedgerEntryModel,
    e2: LedgerEntryModel,
)
    requires
        !timestamps_of(s).contains(e1.timestamp),
        !timestamps_of(s).contains(e2.timestamp),
        e1.timestamp != e2.timestamp,
    ensures
        missing_entries(s + seq![e1, e2], timestamps_of(s)) == seq![e1, e2],
{
    let known = timestamps_of(s);
    let s2 = s + seq![e1, e2];
    assert(s2.last() == e2);
    assert(s2.drop_last() =~= s + seq![e1]);
    assert((s + seq![e1]).last() == e1);
    assert((s + seq![e1]).drop_last() =~= s);
    lemma_sync_closure(s);
    assert(missing_entries(s, known) == Seq::<LedgerEntryModel>::empty());
    assert(missing_entries(s + seq![e1], known) == missing_entries(s, known).push(e1));
    assert(missing_entries(s2, known) == missing_entries(s + seq![e1], known).push(e2));
    assert(missing_entries(s2, known) =~= seq![e1, e2]);
}

/// Answer whether an entry's decrypted payload carries the queried tag.
fn entry_kind_matches(e: &LedgerEntry, kind: &LedgerData) -> (r: bool)
    ensures
        r == entry_matches(e@, kind@),
{
    match &e.data {
        Data::Decrypted { data } => match (data, kind) {
            (LedgerData::ClipboardCopy(_), LedgerData::ClipboardCopy(_)) => true,
            (LedgerData::EncryptionFailed, LedgerData::EncryptionFailed) => true,
            (LedgerData::DecryptionFailed, LedgerData::DecryptionFailed) => true,
            _ => false,
        },
        Data::Encrypted { .. } => false,
    }
}

} // verus!

//! Block headers and transactions, and how they are decoded from their consensus encoding.
//!
//! The decoding itself is done by the `bitcoin` crate; this module states what it gives.

use vstd::prelude::*;

use bitcoin::hex::FromHex;

use crate::encoding::{
    is_text_of, is_text_of_one, is_transaction, starts_with, starts_with_one, transaction_bytes,
    MAX_SIZE,
};

verus! {

/// A double SHA-256 hash, in the order in which it was computed.
#[derive(Debug, Clone, Copy, PartialEq, Eq)]
pub struct DoubleSHA(pub [u8; 32]);

/// A transaction ID.
#[derive(Debug, Clone, Copy, PartialEq, Eq)]
pub struct Txid(pub [u8; 32]);

/// A block hash.
#[derive(Debug, Clone, Copy, PartialEq, Eq)]
pub struct BlockHash(pub [u8; 32]);

/// A node of the Merkle tree of a block's transactions.
#[derive(Debug, Clone, Copy, PartialEq, Eq)]
pub struct TxMerkleNode(pub [u8; 32]);

/// An amount of bitcoin, in satoshis.
#[derive(Debug, Clone, Copy, PartialEq, Eq)]
pub struct Amount {
    /// The number of satoshis.
    pub sat: u64,
}

/// The number from which on a lock time is a time and no height.
pub const LOCK_TIME_THRESHOLD: u32 = 500_000_000;

/// An absolute block height: always below [`LOCK_TIME_THRESHOLD`].
#[derive(Debug, Clone, Copy, PartialEq, Eq)]
pub struct Height {
    consensus: u32,
}

/// `bitcoin::absolute::Height::from_consensus` accepts the numbers below the threshold, and no
/// others.
#[verifier::external_body]
fn is_block_height(n: u32) -> (r: bool)
    ensures
        r == (n < LOCK_TIME_THRESHOLD),
{
    bitcoin::absolute::Height::from_consensus(n).is_ok()
}

impl View for Height {
    type V = nat;

    closed spec fn view(&self) -> nat {
        self.consensus as nat
    }
}

impl Height {
    #[verifier::type_invariant]
    spec fn is_height(self) -> bool {
        self.consensus < LOCK_TIME_THRESHOLD
    }

    /// The height of the given number; `None` where it is too large for a height.
    pub fn from_consensus(n: u32) -> (r: Option<Height>)
        ensures
            match r {
                Some(height) => n < LOCK_TIME_THRESHOLD && height@ == n,
                None => n >= LOCK_TIME_THRESHOLD,
            },
    {
        if is_block_height(n) {
            Some(Height { consensus: n })
        } else {
            None
        }
    }

    /// The number of this height.
    pub fn to_consensus_u32(self) -> (r: u32)
        ensures
            r == self@,
            r < LOCK_TIME_THRESHOLD,
    {
        proof {
            use_type_invariant(&self);
        }
        self.consensus
    }
}

/// A block header.
#[derive(Debug, Clone, Copy, PartialEq, Eq)]
pub struct Header {
    /// Block version.
    pub version: i32,
    /// The hash of the previous block in the chain.
    pub prev_blockhash: BlockHash,
    /// The root of the Merkle tree of the block's transactions.
    pub merkle_root: TxMerkleNode,
    /// The timestamp of the block, as claimed by the miner.
    pub time: u32,
    /// The target value below which the block hash must lie, in compact form.
    pub bits: u32,
    /// The nonce.
    pub nonce: u32,
}

/// The fields of a [`Header`].
pub struct HeaderView {
    /// Block version.
    pub version: int,
    /// The hash of the previous block.
    pub prev_blockhash: Seq<u8>,
    /// The Merkle root.
    pub merkle_root: Seq<u8>,
    /// The timestamp.
    pub time: nat,
    /// The compact target.
    pub bits: nat,
    /// The nonce.
    pub nonce: nat,
}

impl View for Header {
    type V = HeaderView;

    open spec fn view(&self) -> HeaderView {
        HeaderView {
            version: self.version as int,
            prev_blockhash: self.prev_blockhash.0@,
            merkle_root: self.merkle_root.0@,
            time: self.time as nat,
            bits: self.bits as nat,
            nonce: self.nonce as nat,
        }
    }
}

/// A transaction input.
#[derive(Debug, Clone, PartialEq, Eq)]
pub struct TxIn {
    /// The transaction that holds the output being spent.
    pub previous_txid: Txid,
    /// The index of the output being spent.
    pub previous_vout: u32,
    /// The script that satisfies the output's script.
    pub script_sig: Vec<u8>,
    /// The sequence number.
    pub sequence: u32,
    /// The witness: a list of byte strings.
    pub witness: Vec<Vec<u8>>,
}

/// A transaction output.
#[derive(Debug, Clone, PartialEq, Eq)]
pub struct TxOut {
    /// The value of the output.
    pub value: Amount,
    /// The script that must be satisfied for the output to be spent.
    pub script_pubkey: Vec<u8>,
}

/// A transaction.
#[derive(Debug, Clone, PartialEq, Eq)]
pub struct Transaction {
    /// The protocol version.
    pub version: i32,
    /// The height or time before which the transaction cannot be in a block.
    pub lock_time: u32,
    /// The inputs.
    pub input: Vec<TxIn>,
    /// The outputs.
    pub output: Vec<TxOut>,
}

/// The fields of a [`TxIn`].
pub struct TxInView {
    /// The transaction that holds the output being spent.
    pub previous_txid: Seq<u8>,
    /// The index of the output being spent.
    pub previous_vout: u32,
    /// The script that satisfies the output's script.
    pub script_sig: Seq<u8>,
    /// The sequence number.
    pub sequence: u32,
    /// The witness.
    pub witness: Seq<Seq<u8>>,
}

/// The fields of a [`TxOut`].
pub struct TxOutView {
    /// The value in satoshis.
    pub value: u64,
    /// The script.
    pub script_pubkey: Seq<u8>,
}

/// The fields of a [`Transaction`].
pub struct TransactionView {
    /// The protocol version.
    pub version: i32,
    /// The lock time.
    pub lock_time: u32,
    /// The inputs.
    pub input: Seq<TxInView>,
    /// The outputs.
    pub output: Seq<TxOutView>,
}

impl View for TxIn {
    type V = TxInView;

    open spec fn view(&self) -> TxInView {
        TxInView {
            previous_txid: self.previous_txid.0@,
            previous_vout: self.previous_vout,
            script_sig: self.script_sig@,
            sequence: self.sequence,
            witness: self.witness@.map_values(|item: Vec<u8>| item@),
        }
    }
}

impl View for TxOut {
    type V = TxOutView;

    open spec fn view(&self) -> TxOutView {
        TxOutView { value: self.value.sat, script_pubkey: self.script_pubkey@ }
    }
}

impl View for Transaction {
    type V = TransactionView;

    open spec fn view(&self) -> TransactionView {
        TransactionView {
            version: self.version,
            lock_time: self.lock_time,
            input: self.input@.map_values(|i: TxIn| i@),
            output: self.output@.map_values(|o: TxOut| o@),
        }
    }
}

// ---------------------------------------------------------------------------------------------
// Hexadecimal text
// ---------------------------------------------------------------------------------------------
/// The bytes that `s` notes: two hexadecimal digits of either case for each.
pub open spec fn hex_bytes(s: Seq<char>) -> Option<Seq<u8>> {
    if s.len() % 2 == 0 && crate::text::all_hex_digits(s) {
        Some(
            Seq::new(
                (s.len() / 2) as nat,
                |i: int|
                    (crate::text::hex_digit_value(s[2 * i]) * 16 + crate::text::hex_digit_value(
                        s[2 * i + 1],
                    )) as u8,
            ),
        )
    } else {
        None
    }
}

/// The text that notes `bytes`, in lower case.
pub open spec fn hex_notation(bytes: Seq<u8>) -> Seq<char> {
    Seq::new(
        2 * bytes.len(),
        |i: int|
            crate::text::hex_digit_char(
                if i % 2 == 0 {
                    (bytes[i / 2] / 16) as nat
                } else {
                    (bytes[i / 2] % 16) as nat
                },
            ),
    )
}

/// The text that notes bytes reads back as them.
pub proof fn law_hex_notation_reads_back(bytes: Seq<u8>)
    ensures
        hex_bytes(hex_notation(bytes)) == Some(bytes),
{
    let s = hex_notation(bytes);
    assert forall|d: nat| d < 16 implies {
        let c = #[trigger] crate::text::hex_digit_char(d);
        crate::text::is_hex_digit(c) && crate::text::hex_digit_value(c) == d
    } by {}
    assert forall|i: int| 0 <= i < s.len() implies crate::text::is_hex_digit(#[trigger] s[i]) by {}
    let read = hex_bytes(s)->0;
    assert forall|i: int| 0 <= i < bytes.len() implies read[i] == #[trigger] bytes[i] by {
        assert((2 * i) / 2 == i && (2 * i + 1) / 2 == i && (2 * i) % 2 == 0 && (2 * i + 1) % 2
            == 1);
        assert(s[2 * i] == crate::text::hex_digit_char((bytes[i] / 16) as nat));
        assert(s[2 * i + 1] == crate::text::hex_digit_char((bytes[i] % 16) as nat));
    }
    assert(read =~= bytes);
}

/// Text notes bytes two digits at a time: two more digits note one more byte, the first of them its
/// upper half. One more character alone notes none, nor do two that are not both digits.
pub proof fn law_two_digits_note_a_byte(s: Seq<char>, c: char, d: char)
    requires
        hex_bytes(s) is Some,
    ensures
        crate::text::is_hex_digit(c) && crate::text::is_hex_digit(d) ==> hex_bytes(
            s.push(c).push(d),
        ) == Some(
            hex_bytes(s)->0.push(
                (crate::text::hex_digit_value(c) * 16 + crate::text::hex_digit_value(d)) as u8,
            ),
        ),
        !(crate::text::is_hex_digit(c) && crate::text::is_hex_digit(d)) ==> hex_bytes(
            s.push(c).push(d),
        ) is None,
        hex_bytes(s.push(c)) is None,
{
    let t = s.push(c).push(d);
    let n = s.len() as int;
    assert(t[n] == c && t[n + 1] == d);
    if crate::text::is_hex_digit(c) && crate::text::is_hex_digit(d) {
        assert forall|i: int| 0 <= i < t.len() implies crate::text::is_hex_digit(#[trigger] t[i]) by {
            if i < n {
                assert(t[i] == s[i]);
            }
        }
        let b = hex_bytes(s)->0;
        let r = hex_bytes(t)->0;
        let last = (crate::text::hex_digit_value(c) * 16 + crate::text::hex_digit_value(d)) as u8;
        assert forall|i: int| 0 <= i < r.len() implies r[i] == b.push(last)[i] by {
            if i < b.len() {
                assert(t[2 * i] == s[2 * i] && t[2 * i + 1] == s[2 * i + 1]);
            }
        }
        assert(r =~= b.push(last));
    }
}

/// Only no text, and text that notes bytes with two digits behind it, notes bytes.
pub proof fn law_noted_bytes_end_in_two_digits(s: Seq<char>)
    requires
        hex_bytes(s) is Some,
    ensures
        s.len() == 0 ==> hex_bytes(s) == Some(Seq::<u8>::empty()),
        s.len() > 0 ==> s.len() >= 2 && hex_bytes(s.take(s.len() - 2)) is Some,
{
    if s.len() == 0 {
        assert(hex_bytes(s)->0 =~= Seq::<u8>::empty());
    } else {
        let t = s.take(s.len() - 2);
        assert forall|i: int| 0 <= i < t.len() implies crate::text::is_hex_digit(#[trigger] t[i]) by {
            assert(t[i] == s[i]);
        }
    }
}

/// Whether the UTF-8 encoding of `s` has an odd number of bytes.
pub open spec fn odd_length(s: Seq<char>) -> bool {
    vstd::utf8::encode_utf8(s).len() % 2 != 0
}

/// What is wrong with text that notes no bytes.
pub open spec fn hex_error_text(s: Seq<char>) -> Seq<char> {
    if odd_length(s) {
        "odd length, failed to create bytes from hex"@
    } else {
        "invalid char, failed to create bytes from hex"@
    }
}

/// `<Vec<u8> as bitcoin::hex::FromHex>::from_hex` decodes text of an even number of hexadecimal
/// digits, and refuses all other text. Its error is named by whether the text has an odd number of
/// bytes.
#[verifier::external_body]
pub(crate) fn bytes_from_hex(s: &str) -> (r: Result<Vec<u8>, String>)
    ensures
        match r {
            Ok(bytes) => hex_bytes(s@) == Some(bytes@),
            Err(message) => hex_bytes(s@) is None && message@ == hex_error_text(s@),
        },
{
    Vec::<u8>::from_hex(s).map_err(|e| e.to_string())
}

// ---------------------------------------------------------------------------------------------
// Decoding
// ---------------------------------------------------------------------------------------------
/// A value that has a consensus encoding.
pub trait Decodable: View + Sized {
    /// What the hexadecimal text `s` decodes to, or what is wrong with it.
    spec fn of_hex(s: Seq<char>) -> Result<Self::V, Seq<char>>;

    /// What a prefix of `data` decodes to and its length, or what is wrong with `data`.
    spec fn of_prefix(data: Seq<u8>) -> Result<(Self::V, nat), Seq<char>>;

    /// Decodes hexadecimal text, all of it.
    fn deserialize_hex(s: &str) -> (r: Result<Self, String>)
        ensures
            match r {
                Ok(value) => Self::of_hex(s@) == Ok::<Self::V, Seq<char>>(value@),
                Err(message) => Self::of_hex(s@) == Err::<Self::V, Seq<char>>(message@),
            },
    ;

    /// Decodes a prefix of `data`, and says how many bytes it takes.
    fn deserialize_partial(data: &[u8]) -> (r: Result<(Self, usize), String>)
        ensures
            match r {
                Ok((value, n)) => Self::of_prefix(data@) == Ok::<(Self::V, nat), Seq<char>>(
                    (value@, n as nat),
                ) && 0 < n <= data@.len(),
                Err(message) => Self::of_prefix(data@) == Err::<(Self::V, nat), Seq<char>>(
                    message@,
                ),
            },
    ;
}

/// The number that four little-endian bytes from index `i` on stand for.
pub open spec fn le32(b: Seq<u8>, i: int) -> nat {
    (b[i] + 0x100 * b[i + 1] + 0x10000 * b[i + 2] + 0x1000000 * b[i + 3]) as nat
}

/// The number of bytes of an encoded header.
pub const HEADER_SIZE: usize = 80;

/// The header that eighty bytes encode: the fields in order, numbers little-endian.
pub open spec fn header_of(b: Seq<u8>) -> HeaderView {
    HeaderView {
        version: if le32(b, 0) < 0x8000_0000 {
            le32(b, 0) as int
        } else {
            le32(b, 0) - 0x1_0000_0000
        },
        prev_blockhash: b.subrange(4, 36),
        merkle_root: b.subrange(36, 68),
        time: le32(b, 68),
        bits: le32(b, 72),
        nonce: le32(b, 76),
    }
}

/// The four little-endian bytes that stand for `n`.
pub open spec fn le32_bytes(n: nat) -> Seq<u8> {
    seq![
        (n % 0x100) as u8,
        (n / 0x100 % 0x100) as u8,
        (n / 0x10000 % 0x100) as u8,
        (n / 0x1000000 % 0x100) as u8,
    ]
}

/// The eighty bytes that encode a header.
pub open spec fn header_bytes(h: HeaderView) -> Seq<u8> {
    le32_bytes(
        if h.version < 0 {
            (h.version + 0x1_0000_0000) as nat
        } else {
            h.version as nat
        },
    ) + h.prev_blockhash + h.merkle_root + le32_bytes(h.time) + le32_bytes(h.bits) + le32_bytes(
        h.nonce,
    )
}

/// Four bytes read back as the number that they stand for.
proof fn lemma_le32_reads_back(n: nat, b: Seq<u8>, i: int)
    requires
        n < 0x1_0000_0000,
        0 <= i <= b.len() - 4,
        b.subrange(i, i + 4) == le32_bytes(n),
    ensures
        le32(b, i) == n,
{
    let s = b.subrange(i, i + 4);
    assert(s[0] == b[i] && s[1] == b[i + 1] && s[2] == b[i + 2] && s[3] == b[i + 3]);
}

/// The eighty bytes that encode a header read back as the header.
pub proof fn law_header_reads_back(h: Header)
    ensures
        header_bytes(h@).len() == HEADER_SIZE,
        header_of(header_bytes(h@)) == h@,
{
    let v = h@;
    let b = header_bytes(v);
    let version: nat = if v.version < 0 {
        (v.version + 0x1_0000_0000) as nat
    } else {
        v.version as nat
    };
    assert(v.prev_blockhash.len() == 32);
    assert(v.merkle_root.len() == 32);
    assert(b.subrange(0, 4) =~= le32_bytes(version));
    assert(b.subrange(4, 36) =~= v.prev_blockhash);
    assert(b.subrange(36, 68) =~= v.merkle_root);
    assert(b.subrange(68, 72) =~= le32_bytes(v.time));
    assert(b.subrange(72, 76) =~= le32_bytes(v.bits));
    assert(b.subrange(76, 80) =~= le32_bytes(v.nonce));
    lemma_le32_reads_back(version, b, 0);
    lemma_le32_reads_back(v.time, b, 68);
    lemma_le32_reads_back(v.bits, b, 72);
    lemma_le32_reads_back(v.nonce, b, 76);
}

/// What is wrong with hexadecimal text that encodes no header.
pub open spec fn header_hex_error_text(s: Seq<char>) -> Seq<char> {
    if odd_length(s) {
        "odd length, failed to create bytes from hex"@
    } else {
        "decoding error"@
    }
}

/// `bitcoin::consensus::encode::deserialize_hex`, for a block header, succeeds on the hexadecimal
/// text of exactly eighty bytes, and on no other text. Its error is named by whether the text has
/// an odd number of bytes.
#[verifier::external_body]
fn header_from_hex(s: &str) -> (r: Result<Header, String>)
    ensures
        match r {
            Ok(header) => hex_bytes(s@) is Some && hex_bytes(s@)->0.len() == HEADER_SIZE && header@
                == header_of(hex_bytes(s@)->0),
            Err(message) => !(hex_bytes(s@) is Some && hex_bytes(s@)->0.len() == HEADER_SIZE)
                && message@ == header_hex_error_text(s@),
        },
{
    bitcoin::consensus::encode::deserialize_hex::<bitcoin::block::Header>(s).map(|h| Header {
        version: h.version.to_consensus(),
        prev_blockhash: BlockHash(bitcoin::hashes::Hash::to_byte_array(h.prev_blockhash)),
        merkle_root: TxMerkleNode(bitcoin::hashes::Hash::to_byte_array(h.merkle_root)),
        time: h.time,
        bits: h.bits.to_consensus(),
        nonce: h.nonce,
    }).map_err(|e| e.to_string())
}

/// `bitcoin::consensus::deserialize_partial`, for a block header, takes the first eighty bytes,
/// whatever they are, and fails where there are fewer.
#[verifier::external_body]
fn header_from_prefix(data: &[u8]) -> (r: Result<(Header, usize), String>)
    ensures
        match r {
            Ok((header, n)) => data@.len() >= HEADER_SIZE && n == HEADER_SIZE && header@
                == header_of(data@.take(HEADER_SIZE as int)),
            Err(message) => data@.len() < HEADER_SIZE && message@ == "IO error"@,
        },
{
    bitcoin::consensus::deserialize_partial::<bitcoin::block::Header>(data).map(|(h, n)| (Header {
        version: h.version.to_consensus(),
        prev_blockhash: BlockHash(bitcoin::hashes::Hash::to_byte_array(h.prev_blockhash)),
        merkle_root: TxMerkleNode(bitcoin::hashes::Hash::to_byte_array(h.merkle_root)),
        time: h.time,
        bits: h.bits.to_consensus(),
        nonce: h.nonce,
    }, n)).map_err(|e| e.to_string())
}

impl Decodable for Header {
    open spec fn of_hex(s: Seq<char>) -> Result<HeaderView, Seq<char>> {
        match hex_bytes(s) {
            Some(b) => if b.len() == HEADER_SIZE {
                Ok(header_of(b))
            } else {
                Err(header_hex_error_text(s))
            },
            None => Err(header_hex_error_text(s)),
        }
    }

    open spec fn of_prefix(data: Seq<u8>) -> Result<(HeaderView, nat), Seq<char>> {
        if data.len() >= HEADER_SIZE {
            Ok((header_of(data.take(HEADER_SIZE as int)), HEADER_SIZE as nat))
        } else {
            Err("IO error"@)
        }
    }

    fn deserialize_hex(s: &str) -> (r: Result<Self, String>) {
        header_from_hex(s)
    }

    fn deserialize_partial(data: &[u8]) -> (r: Result<(Self, usize), String>) {
        header_from_prefix(data)
    }
}

/// What `bitcoin::consensus::encode::deserialize_hex` gives for a transaction: the transaction that
/// the text encodes, or the text of its error. `max` is the largest `usize`, to which it cuts the
/// lengths that it reads.
pub uninterp spec fn transaction_of_hex(s: Seq<char>, max: nat) -> Result<
    TransactionView,
    Seq<char>,
>;

/// What `bitcoin::consensus::deserialize_partial` gives for a transaction: the transaction that a
/// prefix encodes and the length of that prefix, or the text of its error. `max` is the largest
/// `usize`, to which it cuts the lengths that it reads.
pub uninterp spec fn transaction_of_prefix(data: Seq<u8>, max: nat) -> Result<
    (TransactionView, nat),
    Seq<char>,
>;

/// `bitcoin::consensus::encode::deserialize_hex`, for a transaction: the text of the encoding of a
/// transaction, of no more than four million bytes, gives that transaction. Where a `usize` has 64
/// bits, no other text gives one; a smaller one cuts lengths of scripts and witnesses. The result is
/// named for the sake of all other text.
#[verifier::external_body]
fn transaction_from_hex(s: &str) -> (r: Result<Transaction, String>)
    ensures
        match r {
            Ok(tx) => transaction_of_hex(s@, usize::MAX as nat) == Ok::<TransactionView, Seq<char>>(
                tx@,
            ) && (is_text_of_one(s@) || usize::MAX >= u64::MAX ==> is_text_of(s@, tx@)),
            Err(message) => transaction_of_hex(s@, usize::MAX as nat) == Err::<
                TransactionView,
                Seq<char>,
            >(message@) && !is_text_of_one(s@),
        },
{
    bitcoin::consensus::encode::deserialize_hex::<bitcoin::Transaction>(s).map(|tx| Transaction {
        version: tx.version.0,
        lock_time: tx.lock_time.to_consensus_u32(),
        input: tx.input.into_iter().map(|i| TxIn {
            previous_txid: Txid(bitcoin::hashes::Hash::to_byte_array(i.previous_output.txid)),
            previous_vout: i.previous_output.vout, script_sig: i.script_sig.into_bytes(),
            sequence: i.sequence.0, witness: i.witness.to_vec(),
        }).collect(),
        output: tx.output.into_iter().map(|o| TxOut {
            value: Amount { sat: o.value.to_sat() }, script_pubkey: o.script_pubkey.into_bytes(),
        }).collect(),
    }).map_err(|e| e.to_string())
}

/// `bitcoin::consensus::deserialize_partial`, for a transaction: bytes that start with the encoding
/// of a transaction, none of whose witnesses has more than four million bytes, give that
/// transaction and the length of its encoding. Where a `usize` has 64 bits, no other bytes give
/// one; a smaller one cuts lengths of scripts and witnesses. The result is named for the sake of
/// all other bytes. A transaction takes at least one byte, and no more than there are.
#[verifier::external_body]
fn transaction_from_prefix(data: &[u8]) -> (r: Result<(Transaction, usize), String>)
    ensures
        match r {
            Ok((tx, n)) => transaction_of_prefix(data@, usize::MAX as nat) == Ok::<
                (TransactionView, nat),
                Seq<char>,
            >((tx@, n as nat)) && 0 < n <= data@.len() && (starts_with_one(data@) || usize::MAX
                >= u64::MAX ==> starts_with(data@, tx@) && n == transaction_bytes(tx@).len()),
            Err(message) => transaction_of_prefix(data@, usize::MAX as nat) == Err::<
                (TransactionView, nat),
                Seq<char>,
            >(message@) && !starts_with_one(data@),
        },
{
    bitcoin::consensus::deserialize_partial::<bitcoin::Transaction>(data).map(|(tx, n)| (Transaction {
        version: tx.version.0,
        lock_time: tx.lock_time.to_consensus_u32(),
        input: tx.input.into_iter().map(|i| TxIn {
            previous_txid: Txid(bitcoin::hashes::Hash::to_byte_array(i.previous_output.txid)),
            previous_vout: i.previous_output.vout, script_sig: i.script_sig.into_bytes(),
            sequence: i.sequence.0, witness: i.witness.to_vec(),
        }).collect(),
        output: tx.output.into_iter().map(|o| TxOut {
            value: Amount { sat: o.value.to_sat() }, script_pubkey: o.script_pubkey.into_bytes(),
        }).collect(),
    }, n)).map_err(|e| e.to_string())
}

impl Decodable for Transaction {
    /// The transaction of whose encoding `s` is the text. Other text is refused; only where lengths
    /// are cut can it still give a transaction.
    open spec fn of_hex(s: Seq<char>) -> Result<TransactionView, Seq<char>> {
        if is_text_of_one(s) {
            Ok(choose|v: TransactionView| #[trigger] is_text_of(s, v))
        } else if usize::MAX >= u64::MAX {
            Err(transaction_of_hex(s, usize::MAX as nat)->Err_0)
        } else {
            transaction_of_hex(s, usize::MAX as nat)
        }
    }

    /// The transaction with whose encoding `data` starts, and the length of that encoding. Other
    /// bytes are refused; only where lengths are cut can they still give a transaction.
    open spec fn of_prefix(data: Seq<u8>) -> Result<(TransactionView, nat), Seq<char>> {
        if starts_with_one(data) {
            let v = choose|v: TransactionView| #[trigger] starts_with(data, v);
            Ok((v, transaction_bytes(v).len()))
        } else if usize::MAX >= u64::MAX {
            Err(transaction_of_prefix(data, usize::MAX as nat)->Err_0)
        } else {
            transaction_of_prefix(data, usize::MAX as nat)
        }
    }

    fn deserialize_hex(s: &str) -> (r: Result<Self, String>) {
        let r = transaction_from_hex(s);
        proof {
            if r is Ok && is_text_of_one(s@) {
                let v = choose|v: TransactionView| #[trigger] is_text_of(s@, v);
                crate::encoding::law_text_of_one_transaction(s@, r->Ok_0@, v);
            }
        }
        r
    }

    fn deserialize_partial(data: &[u8]) -> (r: Result<(Self, usize), String>) {
        let r = transaction_from_prefix(data);
        proof {
            if r is Ok && starts_with_one(data@) {
                let v = choose|v: TransactionView| #[trigger] starts_with(data@, v);
                crate::encoding::law_starts_with_one_transaction(data@, r->Ok_0.0@, v);
            }
        }
        r
    }
}

/// The text of the encoding of a transaction reads back as the transaction, field by field.
pub proof fn law_transaction_reads_back(tx: TransactionView, s: Seq<char>)
    requires
        is_transaction(tx),
        transaction_bytes(tx).len() <= MAX_SIZE,
        hex_bytes(s) == Some(transaction_bytes(tx)),
    ensures
        Transaction::of_hex(s) == Ok::<TransactionView, Seq<char>>(tx),
{
    assert(is_text_of(s, tx));
    let v = choose|v: TransactionView| #[trigger] is_text_of(s, v);
    crate::encoding::law_text_of_one_transaction(s, tx, v);
}

/// Bytes that start with the encoding of a transaction give that transaction, field by field, and
/// the length of its encoding, whatever follows.
pub proof fn law_transaction_reads_back_in_front(tx: TransactionView, rest: Seq<u8>)
    requires
        is_transaction(tx),
        crate::encoding::witnesses_fit(tx),
    ensures
        Transaction::of_prefix(transaction_bytes(tx) + rest) == Ok::<
            (TransactionView, nat),
            Seq<char>,
        >((tx, transaction_bytes(tx).len())),
{
    let data = transaction_bytes(tx) + rest;
    assert(starts_with(data, tx));
    let v = choose|v: TransactionView| #[trigger] starts_with(data, v);
    crate::encoding::law_starts_with_one_transaction(data, tx, v);
}

/// Where lengths are not cut, text decodes to a transaction only if it is the text of the encoding
/// of that very transaction.
pub proof fn law_no_other_text_is_a_transaction(s: Seq<char>, tx: TransactionView)
    requires
        usize::MAX >= u64::MAX,
        Transaction::of_hex(s) == Ok::<TransactionView, Seq<char>>(tx),
    ensures
        hex_bytes(s) == Some(transaction_bytes(tx)),
{
}

/// The four bytes of a number are the bytes that it was read from.
proof fn lemma_le32_is_written_back(b: Seq<u8>, i: int)
    requires
        0 <= i <= b.len() - 4,
    ensures
        le32(b, i) < 0x1_0000_0000,
        le32_bytes(le32(b, i)) == b.subrange(i, i + 4),
{
    let n = le32(b, i);
    let (p, q, r, s) = (b[i] as nat, b[i + 1] as nat, b[i + 2] as nat, b[i + 3] as nat);
    assert(n == p + 0x100 * q + 0x10000 * r + 0x1000000 * s);
    assert(n / 0x100 == q + 0x100 * r + 0x10000 * s);
    assert(n / 0x10000 == r + 0x100 * s);
    assert(n / 0x1000000 == s);
    assert(le32_bytes(n) =~= b.subrange(i, i + 4));
}

/// Eighty bytes are those that encode the header that is read from them.
pub proof fn law_header_is_written_back(b: Seq<u8>)
    requires
        b.len() == HEADER_SIZE,
    ensures
        header_bytes(header_of(b)) == b,
{
    lemma_le32_is_written_back(b, 0);
    lemma_le32_is_written_back(b, 68);
    lemma_le32_is_written_back(b, 72);
    lemma_le32_is_written_back(b, 76);
    let h = header_of(b);
    let version: nat = if h.version < 0 {
        (h.version + 0x1_0000_0000) as nat
    } else {
        h.version as nat
    };
    assert(version == le32(b, 0));
    assert(header_bytes(h) =~= b.subrange(0, 4) + b.subrange(4, 36) + b.subrange(36, 68)
        + b.subrange(68, 72) + b.subrange(72, 76) + b.subrange(76, 80));
    assert(header_bytes(h) =~= b);
}

/// Text decodes to a header exactly if it notes eighty bytes, those that encode the header; other
/// text is refused for an odd length, or else as no encoding.
pub proof fn law_only_eighty_bytes_are_a_header(s: Seq<char>)
    ensures
        Header::of_hex(s) is Ok <==> hex_bytes(s) is Some && hex_bytes(s)->0.len() == 80,
        Header::of_hex(s) matches Ok(h) ==> hex_bytes(s) == Some(header_bytes(h)),
        Header::of_hex(s) matches Err(m) ==> m == (if odd_length(s) {
            "odd length, failed to create bytes from hex"@
        } else {
            "decoding error"@
        }),
{
    if hex_bytes(s) is Some && hex_bytes(s)->0.len() == 80 {
        law_header_is_written_back(hex_bytes(s)->0);
    }
}

/// Bytes start with a header exactly if there are eighty of them: it takes the first eighty, and
/// they are those that encode it.
pub proof fn law_the_first_eighty_bytes_are_a_header(data: Seq<u8>)
    ensures
        Header::of_prefix(data) is Ok <==> data.len() >= 80,
        Header::of_prefix(data) matches Ok((h, n)) ==> n == 80 && header_bytes(h) == data.take(80),
        Header::of_prefix(data) matches Err(m) ==> m == "IO error"@,
{
    if data.len() >= 80 {
        law_header_is_written_back(data.take(80));
    }
}

/// Where lengths are not cut, bytes start with a transaction only if they start with its encoding,
/// which is what it takes of them.
pub proof fn law_no_other_bytes_start_with_a_transaction(data: Seq<u8>, tx: TransactionView, n: nat)
    requires
        usize::MAX >= u64::MAX,
        Transaction::of_prefix(data) == Ok::<(TransactionView, nat), Seq<char>>((tx, n)),
    ensures
        n == transaction_bytes(tx).len(),
        n <= data.len(),
        data.take(n as int) == transaction_bytes(tx),
{
}

/// A header, a transaction, an input and an output are all of their fields, each as it is.
pub proof fn law_values_are_their_fields(h: Header, tx: Transaction, i: TxIn, o: TxOut, k: int)
    ensures
        h@.version == h.version,
        h@.prev_blockhash == h.prev_blockhash.0@,
        h@.merkle_root == h.merkle_root.0@,
        h@.time == h.time,
        h@.bits == h.bits,
        h@.nonce == h.nonce,
        tx@.version == tx.version,
        tx@.lock_time == tx.lock_time,
        tx@.input.len() == tx.input@.len(),
        0 <= k < tx.input@.len() ==> tx@.input[k] == tx.input@[k]@,
        tx@.output.len() == tx.output@.len(),
        0 <= k < tx.output@.len() ==> tx@.output[k] == tx.output@[k]@,
        i@.previous_txid == i.previous_txid.0@,
        i@.previous_vout == i.previous_vout,
        i@.script_sig == i.script_sig@,
        i@.sequence == i.sequence,
        i@.witness.len() == i.witness@.len(),
        0 <= k < i.witness@.len() ==> i@.witness[k] == i.witness@[k]@,
        o@.value == o.value.sat,
        o@.script_pubkey == o.script_pubkey@,
{
}

} // verus!

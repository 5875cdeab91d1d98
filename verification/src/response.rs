//! Types representing structured responses returned by the Electrum server.
//!
//! These types correspond to the return values of various Electrum JSON-RPC methods.

use vstd::prelude::*;

use std::collections::HashMap;

use crate::consensus::{
    Amount, BlockHash, DoubleSHA, Header, Height, Transaction, TxMerkleNode, Txid,
};
use crate::custom_serde::{FeeRate, Weight};
use crate::merkle::climb;

verus! {

/// Response to the `"server.version"` method.
///
/// Returns the server's software version and the negotiated protocol version.
///
/// See: <https://electrum-protocol.readthedocs.io/en/latest/protocol-methods.html#server-version>
#[derive(Debug, Clone)]
pub struct ServerVersionResp {
    /// Server software version (e.g. `"ElectrumX 1.18.0"`).
    pub server_software: String,
    /// Negotiated protocol version (e.g. `"1.4"`).
    pub protocol_version: String,
}

impl From<(String, String)> for ServerVersionResp {
    fn from(pair: (String, String)) -> (r: Self) {
        Self { server_software: pair.0, protocol_version: pair.1 }
    }
}

impl vstd::std_specs::convert::FromSpecImpl<(String, String)> for ServerVersionResp {
    open spec fn obeys_from_spec() -> bool {
        true
    }

    open spec fn from_spec(pair: (String, String)) -> Self {
        ServerVersionResp { server_software: pair.0, protocol_version: pair.1 }
    }
}

/// The first text of the pair is the server's software, and the second its protocol version.
pub proof fn law_versions_come_in_a_pair(software: String, protocol: String)
    ensures
        <ServerVersionResp as vstd::std_specs::convert::FromSpec<(String, String)>>::from_spec(
            (software, protocol),
        ).server_software == software,
        <ServerVersionResp as vstd::std_specs::convert::FromSpec<(String, String)>>::from_spec(
            (software, protocol),
        ).protocol_version == protocol,
{
}

/// Response to the `"blockchain.block.header"` method (without checkpoint).
#[derive(Debug, Clone, PartialEq, Eq)]
pub struct HeaderResp {
    /// The block header at the requested height.
    pub header: Header,
}

/// Response to the `"blockchain.block.header"` method with a `cp_height` parameter.
#[derive(Debug, Clone, PartialEq, Eq)]
pub struct HeaderWithProofResp {
    /// A Merkle branch connecting the header to the provided checkpoint root.
    pub branch: Vec<DoubleSHA>,
    /// The block header at the requested height.
    pub header: Header,
    /// The Merkle root for the header chain up to the checkpoint height.
    pub root: DoubleSHA,
}

/// Response to the `"blockchain.block.headers"` method (without checkpoint).
///
/// Stands for both the format before 1.6 (concatenated hex in the `"hex"` field) and that of 1.6
/// (array of hex strings in the `"headers"` field).
#[derive(Debug, Clone)]
pub struct HeadersResp {
    /// The number of headers returned.
    pub count: usize,
    /// The deserialized headers returned by the server.
    pub headers: Vec<Header>,
    /// The server's maximum allowed headers per request.
    pub max: usize,
}

/// Response to the `"blockchain.block.headers"` method with a `cp_height` parameter.
///
/// Stands for both the format before 1.6 (concatenated hex in the `"hex"` field) and that of 1.6
/// (array of hex strings in the `"headers"` field).
#[derive(Debug, Clone)]
pub struct HeadersWithCheckpointResp {
    /// The number of headers returned.
    pub count: usize,
    /// The deserialized headers returned by the server.
    pub headers: Vec<Header>,
    /// The server's maximum allowed headers per request.
    pub max: usize,
    /// The Merkle root of all headers up to the checkpoint height.
    pub root: DoubleSHA,
    /// A Merkle branch proving inclusion of the last header in the checkpoint root.
    pub branch: Vec<DoubleSHA>,
}

/// Response to the `"blockchain.estimatefee"` method.
#[derive(Debug, Clone)]
pub struct EstimateFeeResp {
    /// The estimated fee rate, or `None` if the server could not estimate.
    pub fee_rate: Option<FeeRate>,
}

/// Response to the `"blockchain.headers.subscribe"` method.
#[derive(Debug, Clone, PartialEq, Eq)]
pub struct HeadersSubscribeResp {
    /// The latest block header known to the server.
    pub header: Header,
    /// The height of the block in the header.
    pub height: u32,
}

/// Response to the `"server.relayfee"` method.
#[derive(Debug, Clone)]
pub struct RelayFeeResp {
    /// The minimum fee amount that the server will accept for relaying transactions.
    pub fee: Amount,
}

/// Response to the `"blockchain.scripthash.get_balance"` method.
#[derive(Debug, Clone)]
pub struct GetBalanceResp {
    /// The confirmed balance in satoshis.
    pub confirmed: Amount,
    /// The absolute value of the unconfirmed balance in satoshis, which may be negative.
    pub unconfirmed: Amount,
}

/// A transaction entry of a history.
#[derive(Debug, Clone)]
pub enum Tx {
    /// An unconfirmed transaction.
    Mempool(MempoolTx),
    /// A confirmed transaction.
    Confirmed(ConfirmedTx),
}

/// The height of a transaction as represented by the Electrum API.
pub open spec fn electrum_height_of(tx: Tx) -> int {
    match tx {
        Tx::Mempool(mempool_tx) => if mempool_tx.confirmed_inputs {
            0
        } else {
            -1
        },
        Tx::Confirmed(confirmed_tx) => confirmed_tx.height@ as int,
    }
}

impl Tx {
    /// The transaction ID.
    pub fn txid(&self) -> (r: Txid)
        ensures
            r == (match *self {
                Tx::Mempool(tx) => tx.txid,
                Tx::Confirmed(tx) => tx.txid,
            }),
    {
        match self {
            Tx::Mempool(tx) => tx.txid,
            Tx::Confirmed(tx) => tx.txid,
        }
    }

    /// The height of the block that holds the transaction, if there is one.
    pub fn confirmation_height(&self) -> (r: Option<Height>)
        ensures
            r == (match *self {
                Tx::Mempool(_) => None,
                Tx::Confirmed(tx) => Some(tx.height),
            }),
    {
        match self {
            Tx::Mempool(_) => None,
            Tx::Confirmed(tx) => Some(tx.height),
        }
    }

    /// Returns the transaction height as represented by the Electrum API.
    ///
    /// * Confirmed transactions have a height > 0.
    /// * Unconfirmed transactions either have a height of 0 or -1.
    ///   * 0 means transaction inputs are all confirmed.
    ///   * -1 means not all transaction inputs are confirmed.
    pub fn electrum_height(&self) -> (r: i64)
        ensures
            r == electrum_height_of(*self),
            -1 <= r < crate::consensus::LOCK_TIME_THRESHOLD,
    {
        match self {
            Tx::Mempool(mempool_tx) => if mempool_tx.confirmed_inputs {
                0
            } else {
                -1
            },
            Tx::Confirmed(confirmed_tx) => confirmed_tx.height.to_consensus_u32() as i64,
        }
    }
}

/// The height of an unconfirmed transaction is 0 where all of its inputs are confirmed, and -1
/// where they are not; it is the height from which that was read.
pub proof fn law_unconfirmed_height(tx: MempoolTx, height: int)
    ensures
        electrum_height_of(Tx::Mempool(tx)) == 0 <==> tx.confirmed_inputs,
        electrum_height_of(Tx::Mempool(tx)) == -1 <==> !tx.confirmed_inputs,
        crate::custom_serde::inputs_confirmed_of(height) == Some(tx.confirmed_inputs)
            <==> electrum_height_of(Tx::Mempool(tx)) == height,
{
}

/// A confirmed transaction has a height above 0, given that its block is not that of height 0, and
/// is then told from every unconfirmed one by it.
pub proof fn law_confirmed_height(tx: ConfirmedTx, other: MempoolTx)
    requires
        tx.height@ != 0,
    ensures
        electrum_height_of(Tx::Confirmed(tx)) > 0,
        electrum_height_of(Tx::Confirmed(tx)) == tx.height@,
        electrum_height_of(Tx::Confirmed(tx)) != electrum_height_of(Tx::Mempool(other)),
{
}

/// The height of a confirmed transaction is that of its block.
pub proof fn law_confirmed_height_is_that_of_the_block(tx: ConfirmedTx)
    ensures
        electrum_height_of(Tx::Confirmed(tx)) == tx.height@,
{
}

/// A confirmed transaction entry returned by `"blockchain.scripthash.get_history"`.
#[derive(Debug, Clone)]
pub struct ConfirmedTx {
    /// The transaction ID.
    pub txid: Txid,
    /// The height of the block containing this transaction.
    pub height: Height,
}

/// An unconfirmed transaction returned by `"blockchain.scripthash.get_mempool"`.
#[derive(Debug, Clone)]
pub struct MempoolTx {
    /// The transaction ID.
    pub txid: Txid,
    /// The fee paid by the transaction in satoshis.
    pub fee: Amount,
    /// Whether all inputs are confirmed.
    pub confirmed_inputs: bool,
}

/// Response entry from the `"blockchain.scripthash.listunspent"` method.
#[derive(Debug, Clone)]
pub struct Utxo {
    /// The height of the block in which the UTXO was confirmed, or `0` if unconfirmed.
    pub height: Height,
    /// The output index of the transaction.
    pub tx_pos: usize,
    /// The transaction ID that created this UTXO.
    pub txid: Txid,
    /// The value of the UTXO in satoshis.
    pub value: Amount,
}

/// Response to the `"blockchain.transaction.get"` method.
///
/// Contains the full deserialized transaction.
#[derive(Debug, Clone)]
pub struct FullTx {
    /// The full transaction.
    pub tx: Transaction,
}

/// Response to the `"blockchain.transaction.get_merkle"` method.
///
/// Contains a Merkle proof of inclusion in a block.
#[derive(Debug, Clone)]
pub struct TxMerkle {
    /// The height of the block containing the transaction.
    pub block_height: Height,
    /// The Merkle branch connecting the transaction to the block root.
    pub merkle: Vec<DoubleSHA>,
    /// The transaction's position in the block's Merkle tree.
    pub pos: usize,
}

impl TxMerkle {
    /// Returns the merkle root of a [`Header`] which satisfies this proof.
    pub fn expected_merkle_root(&self, txid: Txid) -> (r: TxMerkleNode)
        ensures
            r.0@ == crate::merkle::root_by_branch(
                self.pos as nat,
                txid.0@,
                crate::merkle::branch_view(self.merkle@),
            ),
    {
        TxMerkleNode(climb(self.pos, txid.0, &self.merkle))
    }
}

/// Response to the `"blockchain.transaction.id_from_pos"` method.
///
/// Returns the transaction ID at the given position in a block.
#[derive(Debug, Clone)]
pub struct TxidFromPos {
    /// The transaction ID located at the specified position.
    pub txid: Txid,
}

/// Response entry from the `"mempool.get_fee_histogram"` method.
///
/// Describes one fee-rate bin and the total weight of transactions at or above that rate.
#[derive(Debug, Clone)]
pub struct FeePair {
    /// The minimum fee rate (in sat/vB) for this bucket.
    pub fee_rate: FeeRate,
    /// The total weight (in vbytes) of transactions at or above this fee rate.
    pub weight: Weight,
}

/// Response to the `"blockchain.transaction.broadcast_package"` method (non-verbose mode).
///
/// See: <https://electrum-protocol.readthedocs.io/en/latest/protocol-methods.html#blockchain-transaction-broadcast-package>
#[derive(Debug, Clone)]
pub struct BroadcastPackageResp {
    /// Whether the package was accepted by the server.
    pub success: bool,
    /// Per-transaction errors for txs that were not accepted, if any.
    ///
    /// Present when `success` is `false`.
    pub errors: Option<Vec<BroadcastPackageError>>,
}

/// A per-transaction rejection inside [`BroadcastPackageResp::errors`].
#[derive(Debug, Clone)]
pub struct BroadcastPackageError {
    /// The rejected transaction's txid.
    pub txid: Txid,
    /// The rejection reason (e.g. `"bad-txns-inputs-missingorspent"`).
    pub error: String,
}

/// Response to the `"mempool.get_info"` method.
///
/// Provides fee-related information about the server's mempool.
///
/// See: <https://electrum-protocol.readthedocs.io/en/latest/protocol-methods.html#mempool-get-info>
#[derive(Debug, Clone)]
pub struct MempoolInfoResp {
    /// The minimum fee rate for a transaction to be accepted into the mempool.
    pub mempoolminfee: FeeRate,
    /// The minimum relay fee rate.
    pub minrelaytxfee: FeeRate,
    /// The incremental relay fee rate.
    pub incrementalrelayfee: FeeRate,
}

/// Response to the `"server.features"` method.
#[derive(Debug, Clone)]
pub struct ServerFeatures {
    /// Hosts.
    pub hosts: HashMap<String, ServerHostValues>,
    /// The hash of the genesis block.
    ///
    ///  This is used to detect if a peer is connected to one serving a different network.
    pub genesis_hash: BlockHash,
    /// The hash function the server uses for script hashing.
    ///
    /// The default is `"sha-256"`.
    pub hash_function: String,
    /// A string that identifies the server software.
    pub server_version: String,
    /// The max protocol version.
    pub protocol_max: String,
    /// The min protocol version.
    pub protocol_min: String,
    /// The pruning limit.
    pub pruning: Option<u32>,
}

/// Server host values.
#[derive(Debug, Clone)]
pub struct ServerHostValues {
    /// SSL Port.
    pub ssl_port: Option<u16>,
    /// TCP Port.
    pub tcp_port: Option<u16>,
}

} // verus!

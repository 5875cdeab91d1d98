use electrum_streaming_client::consensus::{Amount, DoubleSHA, Height, TxMerkleNode, Txid};
use electrum_streaming_client::custom_serde::all_inputs_confirmed_bool_from_height;
use electrum_streaming_client::merkle::{climb, parent_preimage};
use electrum_streaming_client::response::{
    ConfirmedTx, MempoolTx, ServerVersionResp, Tx, TxMerkle,
};

fn height(n: u32) -> Height {
    Height::from_consensus(n).unwrap()
}

fn confirmed(n: u32) -> Tx {
    Tx::Confirmed(ConfirmedTx { txid: Txid([1; 32]), height: height(n) })
}

fn unconfirmed(confirmed_inputs: bool) -> Tx {
    Tx::Mempool(MempoolTx { txid: Txid([2; 32]), fee: Amount { sat: 9 }, confirmed_inputs })
}

/// The leaf of the given number.
fn leaf(i: usize) -> [u8; 32] {
    let mut bytes = [7u8; 32];
    bytes[0] = i as u8;
    bytes
}

fn parent(left: [u8; 32], right: [u8; 32]) -> [u8; 32] {
    let mut data = left.to_vec();
    data.extend_from_slice(&right);
    let hash: bitcoin::hashes::sha256d::Hash = bitcoin::hashes::Hash::hash(&data);
    bitcoin::hashes::Hash::to_byte_array(hash)
}

/// The siblings on the way from a leaf to the root.
fn branch(leaves: &[[u8; 32]], mut pos: usize) -> Vec<DoubleSHA> {
    let mut level = leaves.to_vec();
    let mut siblings = Vec::new();
    while level.len() > 1 {
        if level.len() % 2 == 1 {
            level.push(*level.last().unwrap());
        }
        siblings.push(DoubleSHA(level[pos ^ 1]));
        level = level.chunks(2).map(|pair| parent(pair[0], pair[1])).collect();
        pos /= 2;
    }
    siblings
}

#[test]
fn transaction_ids_are_those_of_either_kind() {
    assert_eq!(confirmed(5).txid(), Txid([1; 32]));
    assert_eq!(unconfirmed(true).txid(), Txid([2; 32]));
}

#[test]
fn only_confirmed_transactions_have_a_confirmation_height() {
    assert_eq!(confirmed(5).confirmation_height(), Some(height(5)));
    assert_eq!(unconfirmed(true).confirmation_height(), None);
}

#[test]
fn electrum_heights_are_as_the_server_gives_them() {
    assert_eq!(confirmed(840_000).electrum_height(), 840_000);
    assert_eq!(confirmed(0).electrum_height(), 0);
    for given in [0i64, -1] {
        let tx = unconfirmed(all_inputs_confirmed_bool_from_height(given).unwrap());
        assert_eq!(tx.electrum_height(), given);
    }
}

#[test]
fn heights_end_where_times_begin() {
    assert_eq!(height(499_999_999).to_consensus_u32(), 499_999_999);
    assert_eq!(Height::from_consensus(500_000_000), None);
    assert_eq!(Height::from_consensus(u32::MAX), None);
}

#[test]
fn branches_lead_to_the_root_that_bitcoin_computes() {
    for n in 1..12usize {
        let leaves: Vec<[u8; 32]> = (0..n).map(leaf).collect();
        let hashes = leaves.iter().map(|l| {
            let h: bitcoin::hashes::sha256d::Hash = bitcoin::hashes::Hash::from_byte_array(*l);
            h
        });
        let root = bitcoin::merkle_tree::calculate_root(hashes).unwrap();
        for pos in 0..n {
            let proof = TxMerkle { block_height: height(1), merkle: branch(&leaves, pos), pos };
            assert_eq!(
                proof.expected_merkle_root(Txid(leaves[pos])),
                TxMerkleNode(bitcoin::hashes::Hash::to_byte_array(root)),
                "{pos} of {n}"
            );
        }
    }
}

#[test]
fn an_empty_branch_leads_to_the_transaction_itself() {
    let proof = TxMerkle { block_height: height(1), merkle: vec![], pos: 3 };
    assert_eq!(proof.expected_merkle_root(Txid([9; 32])), TxMerkleNode([9; 32]));
}

#[test]
fn another_transaction_leads_to_another_root() {
    let leaves: Vec<[u8; 32]> = (0..4).map(leaf).collect();
    let proof = TxMerkle { block_height: height(1), merkle: branch(&leaves, 2), pos: 2 };
    assert_ne!(
        proof.expected_merkle_root(Txid(leaf(2))),
        proof.expected_merkle_root(Txid(leaf(3)))
    );
}

#[test]
fn a_branch_can_be_climbed_in_parts() {
    let leaves: Vec<[u8; 32]> = (0..8).map(leaf).collect();
    let all = branch(&leaves, 5);
    let half_way = climb(5, leaf(5), &all[..1].to_vec());
    assert_eq!(climb(2, half_way, &all[1..].to_vec()), climb(5, leaf(5), &all));
}

#[test]
fn position_bits_above_the_branch_do_not_matter() {
    let leaves: Vec<[u8; 32]> = (0..4).map(leaf).collect();
    let all = branch(&leaves, 1);
    assert_eq!(climb(1, leaf(1), &all), climb(1 + 4 * 100, leaf(1), &all));
}

#[test]
fn an_odd_position_is_a_right_child() {
    let sibling = DoubleSHA([2; 32]);
    let left = parent_preimage(4, &[1; 32], &sibling);
    assert_eq!(left[..32], [1; 32]);
    assert_eq!(left[32..], [2; 32]);
    let right = parent_preimage(5, &[1; 32], &sibling);
    assert_eq!(right[..32], [2; 32]);
    assert_eq!(right[32..], [1; 32]);
}

#[test]
fn versions_come_as_a_pair() {
    let resp = ServerVersionResp::from(("ElectrumX 1.18.0".to_string(), "1.4".to_string()));
    assert_eq!(resp.server_software, "ElectrumX 1.18.0");
    assert_eq!(resp.protocol_version, "1.4");
}

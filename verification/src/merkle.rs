//! Merkle trees of double SHA-256 hashes, as they stand over the transactions of a block.

use vstd::prelude::*;

use crate::consensus::DoubleSHA;

verus! {

/// The double SHA-256 hash of `data`.
pub uninterp spec fn sha256d(data: Seq<u8>) -> Seq<u8>;

/// `<bitcoin::hashes::sha256d::Hash as bitcoin::hashes::Hash>::hash` hashes the given bytes, and
/// nothing but them.
#[verifier::external_body]
fn hash(data: &[u8]) -> (r: [u8; 32])
    ensures
        r@ == sha256d(data@),
{
    let h: bitcoin::hashes::sha256d::Hash = bitcoin::hashes::Hash::hash(data);
    bitcoin::hashes::Hash::to_byte_array(h)
}

/// The parent of two nodes.
pub open spec fn parent(left: Seq<u8>, right: Seq<u8>) -> Seq<u8> {
    sha256d(left + right)
}

/// What is hashed for the parent of the node `cur`, which is number `index` of its level, and its
/// sibling: a node of even number stands on the left.
pub open spec fn preimage(index: nat, cur: Seq<u8>, sibling: Seq<u8>) -> Seq<u8> {
    if index % 2 == 0 {
        cur + sibling
    } else {
        sibling + cur
    }
}

/// The root above the node `cur`, which is number `index` of its level, by the siblings on the way
/// up.
pub open spec fn root_by_branch(index: nat, cur: Seq<u8>, branch: Seq<Seq<u8>>) -> Seq<u8>
    decreases branch.len(),
{
    if branch.len() == 0 {
        cur
    } else {
        root_by_branch(
            index / 2,
            sha256d(preimage(index, cur, branch[0])),
            branch.drop_first(),
        )
    }
}

/// The bytes of the hashes of a branch.
pub open spec fn branch_view(branch: Seq<DoubleSHA>) -> Seq<Seq<u8>> {
    branch.map_values(|h: DoubleSHA| h.0@)
}

/// What is hashed for the parent of the node `cur`, which is number `index` of its level, and its
/// sibling.
pub fn parent_preimage(index: usize, cur: &[u8; 32], sibling: &DoubleSHA) -> (r: Vec<u8>)
    ensures
        r@ == preimage(index as nat, cur@, sibling.0@),
{
    let mut data: Vec<u8> = Vec::new();
    if index % 2 == 0 {
        data.extend_from_slice(cur);
        data.extend_from_slice(&sibling.0);
    } else {
        data.extend_from_slice(&sibling.0);
        data.extend_from_slice(cur);
    }
    assert(data@ =~= preimage(index as nat, cur@, sibling.0@));
    data
}

/// The root above the node `leaf`, which is number `pos` of its level, by the siblings on the way
/// up.
pub fn climb(pos: usize, leaf: [u8; 32], branch: &Vec<DoubleSHA>) -> (r: [u8; 32])
    ensures
        r@ == root_by_branch(pos as nat, leaf@, branch_view(branch@)),
{
    let mut index: usize = pos;
    let mut cur: [u8; 32] = leaf;
    let mut i: usize = 0;
    let ghost all = branch_view(branch@);
    assert(all.skip(0) =~= all);
    while i < branch.len()
        invariant
            i <= branch@.len(),
            all == branch_view(branch@),
            root_by_branch(pos as nat, leaf@, all) == root_by_branch(
                index as nat,
                cur@,
                all.skip(i as int),
            ),
        decreases branch@.len() - i,
    {
        let data = parent_preimage(index, &cur, &branch[i]);
        assert(all.skip(i as int)[0] == branch@[i as int].0@);
        assert(all.skip(i as int).drop_first() =~= all.skip(i + 1));
        cur = hash(&data);
        index = index / 2;
        i = i + 1;
    }
    assert(all.skip(i as int) =~= Seq::<Seq<u8>>::empty());
    cur
}

// ---------------------------------------------------------------------------------------------
// The tree
// ---------------------------------------------------------------------------------------------
/// The level above `level`: the parents of its nodes in pairs, where a last node without a
/// neighbour is paired with itself.
pub open spec fn level_above(level: Seq<Seq<u8>>) -> Seq<Seq<u8>> {
    Seq::new(
        ((level.len() + 1) / 2) as nat,
        |k: int|
            parent(
                level[2 * k],
                if 2 * k + 1 < level.len() {
                    level[2 * k + 1]
                } else {
                    level[2 * k]
                },
            ),
    )
}

/// The root of the tree over the nodes of `level`.
pub open spec fn root_of(level: Seq<Seq<u8>>) -> Seq<u8>
    decreases level.len(),
{
    if level.len() <= 1 {
        level[0]
    } else {
        root_of(level_above(level))
    }
}

/// The neighbour of node `index` of `level`.
pub open spec fn sibling_of(level: Seq<Seq<u8>>, index: nat) -> Seq<u8> {
    if index % 2 == 1 {
        level[index - 1]
    } else if index + 1 < level.len() {
        level[index as int + 1]
    } else {
        level[index as int]
    }
}

/// The siblings on the way from node `index` of `level` up to the root.
pub open spec fn branch_of(level: Seq<Seq<u8>>, index: nat) -> Seq<Seq<u8>>
    decreases level.len(),
{
    if level.len() <= 1 {
        Seq::empty()
    } else {
        seq![sibling_of(level, index)] + branch_of(level_above(level), index / 2)
    }
}

/// The branch of any transaction of a block leads to the root of the tree over the block's
/// transactions.
pub proof fn law_branch_leads_to_root(leaves: Seq<Seq<u8>>, pos: nat)
    requires
        pos < leaves.len(),
    ensures
        root_by_branch(pos, leaves[pos as int], branch_of(leaves, pos)) == root_of(leaves),
    decreases leaves.len(),
{
    if leaves.len() > 1 {
        let above = level_above(leaves);
        let branch = branch_of(leaves, pos);
        let sibling = sibling_of(leaves, pos);
        law_branch_leads_to_root(above, pos / 2);
        assert(branch[0] == sibling);
        assert(branch.drop_first() =~= branch_of(above, pos / 2));
        let k = (pos / 2) as int;
        if pos % 2 == 0 {
            assert(2 * k == pos);
        } else {
            assert(2 * k + 1 == pos);
        }
        assert(above[k] == sha256d(preimage(pos, leaves[pos as int], sibling)));
    }
}

/// One step up hashes a node and its sibling, the left one first: a node of even number is the left
/// one, and the two have the same parent, from which the rest of the branch goes on.
pub proof fn law_siblings_have_one_parent(
    number: nat,
    left: Seq<u8>,
    right: Seq<u8>,
    rest: Seq<Seq<u8>>,
)
    ensures
        root_by_branch(2 * number, left, seq![right] + rest) == root_by_branch(
            number,
            sha256d(left + right),
            rest,
        ),
        root_by_branch(2 * number + 1, right, seq![left] + rest) == root_by_branch(
            number,
            sha256d(left + right),
            rest,
        ),
        root_by_branch(number, left, Seq::empty()) == left,
        parent(left, right) == sha256d(left + right),
{
    assert((seq![right] + rest).drop_first() =~= rest);
    assert((seq![left] + rest).drop_first() =~= rest);
    assert((2 * number) / 2 == number && (2 * number + 1) / 2 == number);
}

/// The hashes of a branch are climbed as they are, in their order.
pub proof fn law_branches_keep_their_hashes(branch: Seq<DoubleSHA>, i: int)
    ensures
        branch_view(branch).len() == branch.len(),
        0 <= i < branch.len() ==> branch_view(branch)[i] == branch[i].0@,
{
}

/// Climbing a branch is climbing its first part, and then the rest from there.
pub proof fn law_branch_in_parts(index: nat, cur: Seq<u8>, low: Seq<Seq<u8>>, high: Seq<Seq<u8>>)
    ensures
        root_by_branch(index, cur, low + high) == root_by_branch(
            index_above(index, low.len()),
            root_by_branch(index, cur, low),
            high,
        ),
    decreases low.len(),
{
    if low.len() == 0 {
        assert(low + high =~= high);
    } else {
        let all = low + high;
        assert(all.drop_first() =~= low.drop_first() + high);
        law_branch_in_parts(
            index / 2,
            sha256d(preimage(index, cur, low[0])),
            low.drop_first(),
            high,
        );
    }
}

/// The number, `levels` levels up, of the node above node `index`.
pub open spec fn index_above(index: nat, levels: nat) -> nat
    decreases levels,
{
    if levels == 0 {
        index
    } else {
        index_above(index / 2, (levels - 1) as nat)
    }
}

/// Only as many low bits of the position matter as the branch has hashes.
pub proof fn law_high_position_bits_do_not_matter(
    i: nat,
    j: nat,
    cur: Seq<u8>,
    branch: Seq<Seq<u8>>,
)
    requires
        i % pow2_of(branch.len()) == j % pow2_of(branch.len()),
    ensures
        root_by_branch(i, cur, branch) == root_by_branch(j, cur, branch),
    decreases branch.len(),
{
    if branch.len() > 0 {
        let n = (branch.len() - 1) as nat;
        let m = pow2_of(n);
        lemma_pow2_positive(n);
        assert(pow2_of(branch.len()) == 2 * m);
        lemma_low_bit(i, m);
        lemma_low_bit(j, m);
        law_high_position_bits_do_not_matter(
            i / 2,
            j / 2,
            sha256d(preimage(i, cur, branch[0])),
            branch.drop_first(),
        );
    }
}

/// Two to the power of `n`.
pub open spec fn pow2_of(n: nat) -> nat
    decreases n,
{
    if n == 0 {
        1
    } else {
        2 * pow2_of((n - 1) as nat)
    }
}

proof fn lemma_pow2_positive(n: nat)
    ensures
        pow2_of(n) > 0,
    decreases n,
{
    if n > 0 {
        lemma_pow2_positive((n - 1) as nat);
    }
}

/// A remainder by `2 * m` tells the low bit, and the remainder of the half by `m`.
proof fn lemma_low_bit(i: nat, m: nat)
    requires
        m > 0,
    ensures
        i % 2 == (i % (2 * m)) % 2,
        (i / 2) % m == (i % (2 * m)) / 2,
{
    let q = i / (2 * m);
    let r = i % (2 * m);
    assert(i == (2 * m) * q + r) by (nonlinear_arith)
        requires
            m > 0,
            q == i / (2 * m),
            r == i % (2 * m),
    ;
    assert(0 <= r < 2 * m) by (nonlinear_arith)
        requires
            m > 0,
            r == i % (2 * m),
    ;
    assert((2 * m) * q == 2 * (m * q)) by (nonlinear_arith);
    assert(i / 2 == m * q + r / 2);
    assert(i % 2 == r % 2);
    assert((m * q + r / 2) % m == r / 2) by (nonlinear_arith)
        requires
            m > 0,
            0 <= r < 2 * m,
    ;
}

} // verus!

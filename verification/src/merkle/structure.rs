//! How trees are put together.

use vstd::prelude::*;

use super::{
    climb, complete, empty_leaf_digest, fold_layer, halvings, has_field_root, lemma_width, masked,
    merkle_path, merkle_root, next_layer, node_digest, padded, root_digest, siblings_from,
    tag_bytes, typed_digest, width, CommitmentHash, TreeKind, CHECKPOINT_HASH_DOMAIN_V1,
    EMPTY_LEAF_LABEL, NODE_LABEL, ROOT_LABEL,
};
use crate::codec::le;
use crate::hashing::sha256;

verus! {

/// What every hash of a tree starts with.
pub open spec fn tree_front(kind: TreeKind) -> Seq<u8> {
    CHECKPOINT_HASH_DOMAIN_V1@ + tag_bytes(kind)
}

/// A node is the hash of its level, its left child and its right child, in this order; a
/// root that of the number of leaves and the topmost node, with its three high-order bits
/// cleared for the trees of accounts, of values read and of settlement effects.
pub proof fn nodes_and_roots_hash_their_parts(
    kind: TreeKind,
    level: nat,
    count: nat,
    left: CommitmentHash,
    right: CommitmentHash,
)
    ensures
        node_digest(kind, level, left, right) == sha256(
            tree_front(kind) + seq![110u8, 111u8, 100u8, 101u8] + le(level, 4) + left@ + right@,
        ),
        ({
            let whole = sha256(
                tree_front(kind) + seq![114u8, 111u8, 111u8, 116u8] + le(count, 4) + left@,
            );
            if kind == TreeKind::State || kind == TreeKind::ReadonlyL1 || kind
                == TreeKind::SettlementEffect {
                root_digest(kind, count, left) == masked(whole)
            } else {
                root_digest(kind, count, left) == whole
            }
        }),
{
    assert(NODE_LABEL@ =~= seq![110u8, 111u8, 100u8, 101u8]);
    assert(ROOT_LABEL@ =~= seq![114u8, 111u8, 111u8, 116u8]);
}

/// Labelled bytes are hashed with their length in front of them.
pub proof fn labelled_bytes_are_hashed_with_their_length(
    kind: TreeKind,
    label: Seq<u8>,
    bytes: Seq<u8>,
    index: nat,
)
    ensures
        typed_digest(kind, label, bytes) == sha256(
            tree_front(kind) + label + le(bytes.len(), 8) + bytes,
        ),
        empty_leaf_digest(kind, index) == typed_digest(kind, EMPTY_LEAF_LABEL@, le(index, 4)),
{
}

proof fn lemma_join(kind: TreeKind, level: nat, a: Seq<CommitmentHash>, b: Seq<CommitmentHash>)
    requires
        complete(a.len()),
        a.len() == b.len(),
    ensures
        fold_layer(kind, level, a + b) == node_digest(
            kind,
            level + halvings(a.len()),
            fold_layer(kind, level, a),
            fold_layer(kind, level, b),
        ),
    decreases a.len(),
{
    let both = a + b;
    let up = next_layer(kind, level, both);
    if a.len() == 1 {
        assert(up.len() == 1);
        assert(up[0] == node_digest(kind, level, both[0], both[1]));
        assert(fold_layer(kind, level + 1, up) == up[0]);
    } else {
        let up_a = next_layer(kind, level, a);
        let up_b = next_layer(kind, level, b);
        let half = a.len() / 2;
        assert(a.len() == 2 * half);
        lemma_join(kind, level + 1, up_a, up_b);
        assert forall|i: int| 0 <= i < up.len() implies up[i] == (up_a + up_b)[i] by {
            if i < half {
                assert(both[2 * i] == a[2 * i] && both[2 * i + 1] == a[2 * i + 1]);
            } else {
                let j = i - half;
                assert(both[2 * i] == b[2 * j] && both[2 * i + 1] == b[2 * j + 1]);
            }
        }
        assert(up =~= up_a + up_b);
        assert(halvings(a.len()) == 1 + halvings(half));
    }
}

/// Two trees of the same width, a power of two, are joined by one node above their own
/// topmost nodes, the first on the left; a single leaf is its own topmost node.
pub proof fn trees_are_joined_by_a_node(
    kind: TreeKind,
    a: Seq<CommitmentHash>,
    b: Seq<CommitmentHash>,
    leaf: CommitmentHash,
)
    requires
        complete(a.len()),
        a.len() == b.len(),
    ensures
        fold_layer(kind, 0, a + b) == node_digest(
            kind,
            halvings(a.len()),
            fold_layer(kind, 0, a),
            fold_layer(kind, 0, b),
        ),
        fold_layer(kind, 0, seq![leaf]) == leaf,
{
    lemma_join(kind, 0, a, b);
}

/// A tree is filled up behind its leaves to the next power of two, with an empty leaf of
/// its own for every index; there are fewer than twice as many leaves then. The root is
/// that of the number of leaves and of the topmost node.
pub proof fn trees_are_filled_up(kind: TreeKind, leaves: Seq<CommitmentHash>, i: int)
    requires
        leaves.len() > 0,
    ensures
        ({
            let filled = padded(kind, leaves);
            &&& complete(filled.len())
            &&& leaves.len() <= filled.len() < 2 * leaves.len()
            &&& filled.take(leaves.len() as int) == leaves
            &&& leaves.len() <= i < filled.len() ==> filled[i] == typed_digest(
                kind,
                EMPTY_LEAF_LABEL@,
                le(i as nat, 4),
            )
            &&& merkle_root(kind, leaves) == root_digest(
                kind,
                leaves.len(),
                fold_layer(kind, 0, filled),
            )
        }),
{
    lemma_width(leaves.len());
    assert(width(leaves.len()) < 2 * leaves.len());
    assert(padded(kind, leaves).take(leaves.len() as int) =~= leaves);
}

/// A path names its leaf's place and how many leaves there are, and starts with the other
/// leaf of the pair that its leaf belongs to.
pub proof fn paths_start_at_the_neighbour(
    kind: TreeKind,
    leaves: Seq<CommitmentHash>,
    index: int,
)
    requires
        1 < leaves.len() <= u32::MAX,
        0 <= index < leaves.len(),
    ensures
        ({
            let path = merkle_path(kind, leaves, index);
            let filled = padded(kind, leaves);
            &&& path.leaf_index == index
            &&& path.leaf_count == leaves.len()
            &&& path.siblings.len() > 0
            &&& index % 2 == 0 ==> path.siblings[0] == filled[index + 1]
            &&& index % 2 == 1 ==> path.siblings[0] == filled[index - 1]
        }),
{
    lemma_width(leaves.len());
    let filled = padded(kind, leaves);
    assert(siblings_from(kind, 0, filled, index).len() > 0);
}

/// The way up from an item goes through the hash of it and its sibling, with the item on
/// the left at an even place and on the right at an odd one.
pub proof fn the_way_up_keeps_the_sides(
    kind: TreeKind,
    level: nat,
    index: int,
    current: CommitmentHash,
    sibling: CommitmentHash,
    rest: Seq<CommitmentHash>,
)
    ensures
        index % 2 == 0 ==> climb(kind, level, index, current, seq![sibling] + rest) == climb(
            kind,
            level + 1,
            index / 2,
            node_digest(kind, level, current, sibling),
            rest,
        ),
        index % 2 != 0 ==> climb(kind, level, index, current, seq![sibling] + rest) == climb(
            kind,
            level + 1,
            index / 2,
            node_digest(kind, level, sibling, current),
            rest,
        ),
        climb(kind, level, index, current, Seq::empty()) == current,
        has_field_root(kind) <==> kind == TreeKind::State || kind == TreeKind::ReadonlyL1 || kind
            == TreeKind::SettlementEffect,
{
    let siblings = seq![sibling] + rest;
    assert(siblings.drop_first() =~= rest);
}

} // verus!

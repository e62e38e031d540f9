//! Roots bind leaves, as far as the hash function has no collisions.

use vstd::prelude::*;

use super::{
    climb, complete, fold_layer, halvings, has_field_root, lemma_width, masked, merkle_root,
    next_layer, node_digest, padded, path_verifies, root_digest, tag_bytes, typed_digest,
    CommitmentHash, PathModel, TreeKind, CHECKPOINT_HASH_DOMAIN_V1, EMPTY_LEAF_LABEL, NODE_LABEL,
    ROOT_LABEL,
};
use crate::codec::{le, lemma_le_len, lemma_pow256_values, lemma_value_of_le};
use crate::hashing::sha256;

verus! {

/// No two of these byte strings have the same digest, even with the three
/// high-order bits left out.
#[verifier::opaque]
pub open spec fn collision_free(inputs: Set<Seq<u8>>) -> bool {
    forall|a: Seq<u8>, b: Seq<u8>|
        inputs.contains(a) && inputs.contains(b) && masked(#[trigger] sha256(a)) == masked(
            #[trigger] sha256(b),
        ) ==> a == b
}

/// Bytes with the same digest are the same.
pub proof fn lemma_no_collision(inputs: Set<Seq<u8>>, a: Seq<u8>, b: Seq<u8>)
    requires
        collision_free(inputs),
        inputs.contains(a),
        inputs.contains(b),
        masked(sha256(a)) == masked(sha256(b)),
    ensures
        a == b,
{
    reveal(collision_free);
}

/// What is hashed for labelled bytes of a tree.
pub open spec fn typed_input(kind: TreeKind, label: Seq<u8>, bytes: Seq<u8>) -> Seq<u8> {
    CHECKPOINT_HASH_DOMAIN_V1@ + tag_bytes(kind) + label + le(bytes.len(), 8) + bytes
}

/// What is hashed for an inner node.
pub open spec fn node_input(
    kind: TreeKind,
    level: nat,
    left: CommitmentHash,
    right: CommitmentHash,
) -> Seq<u8> {
    CHECKPOINT_HASH_DOMAIN_V1@ + tag_bytes(kind) + NODE_LABEL@ + le(level, 4) + left@ + right@
}

/// What is hashed for the root.
pub open spec fn root_input(kind: TreeKind, leaf_count: nat, inner: CommitmentHash) -> Seq<u8> {
    CHECKPOINT_HASH_DOMAIN_V1@ + tag_bytes(kind) + ROOT_LABEL@ + le(leaf_count, 4) + inner@
}

/// Everything that is hashed for the nodes above a layer is among the inputs.
pub open spec fn hashes_nodes(
    inputs: Set<Seq<u8>>,
    kind: TreeKind,
    level: nat,
    layer: Seq<CommitmentHash>,
) -> bool
    decreases layer.len(),
{
    layer.len() <= 1 || {
        &&& forall|i: int|
            0 <= i < layer.len() / 2 ==> inputs.contains(
                #[trigger] node_input(kind, level, layer[2 * i], layer[2 * i + 1]),
            )
        &&& hashes_nodes(inputs, kind, level + 1, next_layer(kind, level, layer))
    }
}

/// Everything that is hashed above the leaves of a tree is among the inputs.
pub open spec fn hashes_tree(
    inputs: Set<Seq<u8>>,
    kind: TreeKind,
    leaves: Seq<CommitmentHash>,
) -> bool {
    &&& hashes_nodes(inputs, kind, 0, padded(kind, leaves))
    &&& inputs.contains(
        root_input(kind, leaves.len(), fold_layer(kind, 0, padded(kind, leaves))),
    )
}

/// Everything that is hashed on the way up from an item is among the inputs.
pub open spec fn hashes_climb(
    inputs: Set<Seq<u8>>,
    kind: TreeKind,
    level: nat,
    index: int,
    current: CommitmentHash,
    siblings: Seq<CommitmentHash>,
) -> bool
    decreases siblings.len(),
{
    siblings.len() == 0 || {
        let left = if index % 2 == 0 {
            current
        } else {
            siblings[0]
        };
        let right = if index % 2 == 0 {
            siblings[0]
        } else {
            current
        };
        &&& inputs.contains(node_input(kind, level, left, right))
        &&& hashes_climb(
            inputs,
            kind,
            level + 1,
            index / 2,
            node_digest(kind, level, left, right),
            siblings.drop_first(),
        )
    }
}

/// Everything that is hashed to check a path is among the inputs.
pub open spec fn hashes_path(
    inputs: Set<Seq<u8>>,
    kind: TreeKind,
    path: PathModel,
    leaf: CommitmentHash,
) -> bool {
    &&& hashes_climb(inputs, kind, 0, path.leaf_index as int, leaf, path.siblings)
    &&& inputs.contains(
        root_input(
            kind,
            path.leaf_count as nat,
            climb(kind, 0, path.leaf_index as int, leaf, path.siblings),
        ),
    )
}

/// Two concatenations whose first parts are equally long are equal in both parts.
pub proof fn lemma_same_parts(a: Seq<u8>, b: Seq<u8>, c: Seq<u8>, d: Seq<u8>)
    requires
        a.len() == c.len(),
        a + b == c + d,
    ensures
        a == c,
        b == d,
{
    assert((a + b).take(a.len() as int) =~= a);
    assert((c + d).take(a.len() as int) =~= c);
    assert((a + b).skip(a.len() as int) =~= b);
    assert((c + d).skip(a.len() as int) =~= d);
}

pub proof fn lemma_same_hash(a: CommitmentHash, b: CommitmentHash)
    requires
        a@ == b@,
    ensures
        a == b,
{
    assert(a =~= b);
}

/// Numbers that fit have the same bytes only if they are equal.
pub proof fn lemma_same_le(a: nat, b: nat, w: nat)
    requires
        le(a, w) == le(b, w),
        a < crate::codec::pow256(w),
        b < crate::codec::pow256(w),
    ensures
        a == b,
{
    lemma_value_of_le(a, w);
    lemma_value_of_le(b, w);
}

/// Labelled bytes of one tree with the same digest are the same.
pub proof fn digests_bind_bytes(
    inputs: Set<Seq<u8>>,
    kind: TreeKind,
    label: Seq<u8>,
    a: Seq<u8>,
    b: Seq<u8>,
)
    requires
        collision_free(inputs),
        inputs.contains(typed_input(kind, label, a)),
        inputs.contains(typed_input(kind, label, b)),
        masked(typed_digest(kind, label, a)) == masked(typed_digest(kind, label, b)),
    ensures
        a == b,
{
    let front = CHECKPOINT_HASH_DOMAIN_V1@ + tag_bytes(kind) + label;
    lemma_le_len(a.len(), 8);
    lemma_le_len(b.len(), 8);
    lemma_no_collision(inputs, typed_input(kind, label, a), typed_input(kind, label, b));
    lemma_same_parts(front + le(a.len(), 8), a, front + le(b.len(), 8), b);
}

proof fn lemma_nodes_bind(
    inputs: Set<Seq<u8>>,
    kind: TreeKind,
    level: nat,
    a: (CommitmentHash, CommitmentHash),
    b: (CommitmentHash, CommitmentHash),
)
    requires
        collision_free(inputs),
        inputs.contains(node_input(kind, level, a.0, a.1)),
        inputs.contains(node_input(kind, level, b.0, b.1)),
        node_digest(kind, level, a.0, a.1) == node_digest(kind, level, b.0, b.1),
    ensures
        a == b,
{
    let front = CHECKPOINT_HASH_DOMAIN_V1@ + tag_bytes(kind) + NODE_LABEL@ + le(level, 4);
    lemma_no_collision(
        inputs,
        node_input(kind, level, a.0, a.1),
        node_input(kind, level, b.0, b.1),
    );
    lemma_same_parts(front + a.0@, a.1@, front + b.0@, b.1@);
    lemma_same_parts(front, a.0@, front, b.0@);
    lemma_same_hash(a.0, b.0);
    lemma_same_hash(a.1, b.1);
}

proof fn lemma_layers_bind(
    inputs: Set<Seq<u8>>,
    kind: TreeKind,
    level: nat,
    a: Seq<CommitmentHash>,
    b: Seq<CommitmentHash>,
)
    requires
        collision_free(inputs),
        hashes_nodes(inputs, kind, level, a),
        hashes_nodes(inputs, kind, level, b),
        a.len() == b.len(),
        complete(a.len()),
        fold_layer(kind, level, a) == fold_layer(kind, level, b),
    ensures
        a == b,
    decreases a.len(),
{
    if a.len() > 1 {
        let above_a = next_layer(kind, level, a);
        let above_b = next_layer(kind, level, b);
        lemma_layers_bind(inputs, kind, level + 1, above_a, above_b);
        assert forall|j: int| 0 <= j < a.len() implies a[j] == b[j] by {
            let i = j / 2;
            assert(0 <= i < a.len() / 2);
            assert(above_a[i] == node_digest(kind, level, a[2 * i], a[2 * i + 1]));
            assert(above_b[i] == node_digest(kind, level, b[2 * i], b[2 * i + 1]));
            assert(inputs.contains(node_input(kind, level, a[2 * i], a[2 * i + 1])));
            assert(inputs.contains(node_input(kind, level, b[2 * i], b[2 * i + 1])));
            lemma_nodes_bind(
                inputs,
                kind,
                level,
                (a[2 * i], a[2 * i + 1]),
                (b[2 * i], b[2 * i + 1]),
            );
            assert(j == 2 * i || j == 2 * i + 1);
        }
    }
    assert(a =~= b);
}

proof fn lemma_roots_bind(
    inputs: Set<Seq<u8>>,
    kind: TreeKind,
    n: nat,
    a: CommitmentHash,
    m: nat,
    b: CommitmentHash,
)
    requires
        collision_free(inputs),
        inputs.contains(root_input(kind, n, a)),
        inputs.contains(root_input(kind, m, b)),
        n <= u32::MAX,
        m <= u32::MAX,
        root_digest(kind, n, a) == root_digest(kind, m, b),
    ensures
        n == m,
        a == b,
{
    let front = CHECKPOINT_HASH_DOMAIN_V1@ + tag_bytes(kind) + ROOT_LABEL@;
    lemma_pow256_values();
    lemma_le_len(n, 4);
    lemma_le_len(m, 4);
    assert(masked(sha256(root_input(kind, n, a))) == masked(sha256(root_input(kind, m, b)))) by {
        if !has_field_root(kind) {
            assert(sha256(root_input(kind, n, a)) == sha256(root_input(kind, m, b)));
        }
    }
    lemma_no_collision(inputs, root_input(kind, n, a), root_input(kind, m, b));
    lemma_same_parts(front + le(n, 4), a@, front + le(m, 4), b@);
    lemma_same_parts(front, le(n, 4), front, le(m, 4));
    lemma_same_le(n, m, 4);
    lemma_same_hash(a, b);
}

/// Two trees of one kind with the same root have the same leaves.
pub proof fn equal_roots_have_equal_leaves(
    inputs: Set<Seq<u8>>,
    kind: TreeKind,
    a: Seq<CommitmentHash>,
    b: Seq<CommitmentHash>,
)
    requires
        collision_free(inputs),
        hashes_tree(inputs, kind, a),
        hashes_tree(inputs, kind, b),
        a.len() <= u32::MAX,
        b.len() <= u32::MAX,
        merkle_root(kind, a) == merkle_root(kind, b),
    ensures
        a == b,
{
    let layer_a = padded(kind, a);
    let layer_b = padded(kind, b);
    lemma_width(a.len());
    lemma_width(b.len());
    lemma_roots_bind(
        inputs,
        kind,
        a.len(),
        fold_layer(kind, 0, layer_a),
        b.len(),
        fold_layer(kind, 0, layer_b),
    );
    lemma_layers_bind(inputs, kind, 0, layer_a, layer_b);
    assert forall|i: int| 0 <= i < a.len() implies a[i] == b[i] by {
        assert(layer_a[i] == a[i] && layer_b[i] == b[i]);
    }
    assert(a =~= b);
}

proof fn lemma_climb_binds(
    inputs: Set<Seq<u8>>,
    kind: TreeKind,
    level: nat,
    layer: Seq<CommitmentHash>,
    index: int,
    current: CommitmentHash,
    siblings: Seq<CommitmentHash>,
)
    requires
        collision_free(inputs),
        hashes_nodes(inputs, kind, level, layer),
        hashes_climb(inputs, kind, level, index, current, siblings),
        complete(layer.len()),
        0 <= index < layer.len(),
        siblings.len() == halvings(layer.len()),
        climb(kind, level, index, current, siblings) == fold_layer(kind, level, layer),
    ensures
        current == layer[index],
    decreases layer.len(),
{
    if layer.len() > 1 {
        let above = next_layer(kind, level, layer);
        let i = index / 2;
        let left = if index % 2 == 0 {
            current
        } else {
            siblings[0]
        };
        let right = if index % 2 == 0 {
            siblings[0]
        } else {
            current
        };
        let parent = node_digest(kind, level, left, right);
        lemma_climb_binds(inputs, kind, level + 1, above, i, parent, siblings.drop_first());
        assert(above[i] == node_digest(kind, level, layer[2 * i], layer[2 * i + 1]));
        assert(inputs.contains(node_input(kind, level, layer[2 * i], layer[2 * i + 1])));
        lemma_nodes_bind(
            inputs,
            kind,
            level,
            (left, right),
            (layer[2 * i], layer[2 * i + 1]),
        );
    }
}

/// A path that leads to the root of a tree leads there from the leaf of the tree that
/// is at the path's index, and it says how many leaves the tree has.
pub proof fn paths_lead_from_leaves(
    inputs: Set<Seq<u8>>,
    kind: TreeKind,
    leaves: Seq<CommitmentHash>,
    path: PathModel,
    leaf: CommitmentHash,
)
    requires
        collision_free(inputs),
        hashes_tree(inputs, kind, leaves),
        hashes_path(inputs, kind, path, leaf),
        leaves.len() <= u32::MAX,
        path_verifies(path, kind, leaf, merkle_root(kind, leaves)),
    ensures
        path.leaf_count == leaves.len(),
        path.leaf_index < leaves.len(),
        leaf == leaves[path.leaf_index as int],
{
    let layer = padded(kind, leaves);
    lemma_width(leaves.len());
    lemma_roots_bind(
        inputs,
        kind,
        path.leaf_count as nat,
        climb(kind, 0, path.leaf_index as int, leaf, path.siblings),
        leaves.len(),
        fold_layer(kind, 0, layer),
    );
    lemma_climb_binds(inputs, kind, 0, layer, path.leaf_index as int, leaf, path.siblings);
}

/// Hashes of different trees are kept apart: no two trees have the same tag. Neither
/// have leaves that fill up a tree, nodes and roots the same label.
pub proof fn trees_are_kept_apart(a: TreeKind, b: TreeKind)
    requires
        a != b,
    ensures
        tag_bytes(a) != tag_bytes(b),
        NODE_LABEL@ != ROOT_LABEL@,
        EMPTY_LEAF_LABEL@.len() != NODE_LABEL@.len(),
{
    let x = tag_bytes(a);
    let y = tag_bytes(b);
    assert(x.len() != y.len() || x[0] != y[0] || x[1] != y[1]);
    assert(NODE_LABEL@[0] != ROOT_LABEL@[0]);
}

} // verus!

//! Domain-separated Merkle trees and authentication paths.
//!
//! Leaves are padded to a power of two with leaves that no value hashes to by
//! construction, every inner node commits to its level, and the root commits
//! to the number of leaves.

use vstd::prelude::*;

use crate::checkpoint::CheckpointArtifactError;
use crate::codec::{le, put_bytes, put_le, same_array};
use crate::hashing::{hash_bytes, sha256};

pub mod binding;
pub mod structure;

verus! {

pub type CommitmentHash = [u8; 32];

/// `northstar-checkpoint-v1`
pub const CHECKPOINT_HASH_DOMAIN_V1: [u8; 23] = [
    110u8, 111u8, 114u8, 116u8, 104u8, 115u8, 116u8, 97u8, 114u8, 45u8, 99u8, 104u8, 101u8,
    99u8, 107u8, 112u8, 111u8, 105u8, 110u8, 116u8, 45u8, 118u8, 49u8,
];

/// `state`
pub const STATE_TAG: [u8; 5] = [115u8, 116u8, 97u8, 116u8, 101u8];

/// `trace`
pub const TRACE_TAG: [u8; 5] = [116u8, 114u8, 97u8, 99u8, 101u8];

/// `transaction-effect`
pub const TRANSACTION_EFFECT_TAG: [u8; 18] = [
    116u8, 114u8, 97u8, 110u8, 115u8, 97u8, 99u8, 116u8, 105u8, 111u8, 110u8, 45u8, 101u8,
    102u8, 102u8, 101u8, 99u8, 116u8,
];

/// `readonly-l1`
pub const READONLY_L1_TAG: [u8; 11] = [
    114u8, 101u8, 97u8, 100u8, 111u8, 110u8, 108u8, 121u8, 45u8, 108u8, 49u8,
];

/// `settlement-effect`
pub const SETTLEMENT_EFFECT_TAG: [u8; 17] = [
    115u8, 101u8, 116u8, 116u8, 108u8, 101u8, 109u8, 101u8, 110u8, 116u8, 45u8, 101u8, 102u8,
    102u8, 101u8, 99u8, 116u8,
];

/// `data-availability`
pub const DATA_AVAILABILITY_TAG: [u8; 17] = [
    100u8, 97u8, 116u8, 97u8, 45u8, 97u8, 118u8, 97u8, 105u8, 108u8, 97u8, 98u8, 105u8, 108u8,
    105u8, 116u8, 121u8,
];

/// `empty-leaf`
pub const EMPTY_LEAF_LABEL: [u8; 10] = [
    101u8, 109u8, 112u8, 116u8, 121u8, 45u8, 108u8, 101u8, 97u8, 102u8,
];

/// `node`
pub const NODE_LABEL: [u8; 4] = [110u8, 111u8, 100u8, 101u8];

/// `root`
pub const ROOT_LABEL: [u8; 4] = [114u8, 111u8, 111u8, 116u8];

/// The trees of a checkpoint.
#[derive(Clone, Copy, PartialEq, Eq, Debug, Structural)]
pub enum TreeKind {
    State,
    Trace,
    TransactionEffect,
    ReadonlyL1,
    SettlementEffect,
    DataAvailability,
}

/// The name under which a tree's hashes are separated from the others'.
pub open spec fn tag_bytes(kind: TreeKind) -> Seq<u8> {
    match kind {
        TreeKind::State => STATE_TAG@,
        TreeKind::Trace => TRACE_TAG@,
        TreeKind::TransactionEffect => TRANSACTION_EFFECT_TAG@,
        TreeKind::ReadonlyL1 => READONLY_L1_TAG@,
        TreeKind::SettlementEffect => SETTLEMENT_EFFECT_TAG@,
        TreeKind::DataAvailability => DATA_AVAILABILITY_TAG@,
    }
}

/// Trees whose root is read as a scalar-field element.
pub open spec fn has_field_root(kind: TreeKind) -> bool {
    kind is State || kind is ReadonlyL1 || kind is SettlementEffect
}

impl TreeKind {
    pub fn tag(self) -> (tag: &'static [u8])
        ensures
            tag@ == tag_bytes(self),
    {
        match self {
            TreeKind::State => &STATE_TAG,
            TreeKind::Trace => &TRACE_TAG,
            TreeKind::TransactionEffect => &TRANSACTION_EFFECT_TAG,
            TreeKind::ReadonlyL1 => &READONLY_L1_TAG,
            TreeKind::SettlementEffect => &SETTLEMENT_EFFECT_TAG,
            TreeKind::DataAvailability => &DATA_AVAILABILITY_TAG,
        }
    }

    pub fn root_is_field(self) -> (is_field: bool)
        ensures
            is_field == has_field_root(self),
    {
        matches!(self, TreeKind::State | TreeKind::ReadonlyL1 | TreeKind::SettlementEffect)
    }
}

/// `h` with the three high-order bits cleared, so that it is less than the
/// order of the scalar field.
pub open spec fn masked(h: CommitmentHash) -> CommitmentHash {
    [
        h[0] & 0x1fu8, h[1], h[2], h[3], h[4], h[5], h[6], h[7],
        h[8], h[9], h[10], h[11], h[12], h[13], h[14], h[15],
        h[16], h[17], h[18], h[19], h[20], h[21], h[22], h[23],
        h[24], h[25], h[26], h[27], h[28], h[29], h[30], h[31],
    ]
}

pub(crate) fn mask(h: CommitmentHash) -> (r: CommitmentHash)
    ensures
        r == masked(h),
{
    let mut r = h;
    r[0] = r[0] & 0x1f;
    assert(r =~= masked(h));
    r
}

/// The digest of labelled bytes of a tree.
pub open spec fn typed_digest(kind: TreeKind, label: Seq<u8>, bytes: Seq<u8>) -> CommitmentHash {
    sha256(CHECKPOINT_HASH_DOMAIN_V1@ + tag_bytes(kind) + label + le(bytes.len(), 8) + bytes)
}

pub open spec fn empty_leaf_digest(kind: TreeKind, index: nat) -> CommitmentHash {
    typed_digest(kind, EMPTY_LEAF_LABEL@, le(index, 4))
}

pub open spec fn node_digest(
    kind: TreeKind,
    level: nat,
    left: CommitmentHash,
    right: CommitmentHash,
) -> CommitmentHash {
    sha256(
        CHECKPOINT_HASH_DOMAIN_V1@ + tag_bytes(kind) + NODE_LABEL@ + le(level, 4) + left@ + right@,
    )
}

pub open spec fn root_digest(
    kind: TreeKind,
    leaf_count: nat,
    inner: CommitmentHash,
) -> CommitmentHash {
    let digest = sha256(
        CHECKPOINT_HASH_DOMAIN_V1@ + tag_bytes(kind) + ROOT_LABEL@ + le(leaf_count, 4) + inner@,
    );
    if has_field_root(kind) {
        masked(digest)
    } else {
        digest
    }
}

pub fn typed_hash(kind: TreeKind, label: &[u8], bytes: &[u8]) -> (h: CommitmentHash)
    ensures
        h == typed_digest(kind, label@, bytes@),
{
    let mut buffer: Vec<u8> = Vec::new();
    put_bytes(&mut buffer, &CHECKPOINT_HASH_DOMAIN_V1);
    put_bytes(&mut buffer, kind.tag());
    put_bytes(&mut buffer, label);
    put_le(&mut buffer, bytes.len() as u64, 8);
    put_bytes(&mut buffer, bytes);
    assert(Seq::<u8>::empty() + CHECKPOINT_HASH_DOMAIN_V1@ =~= CHECKPOINT_HASH_DOMAIN_V1@);
    hash_bytes(buffer.as_slice())
}

pub fn empty_leaf_hash(kind: TreeKind, index: usize) -> (r: Result<
    CommitmentHash,
    CheckpointArtifactError,
>)
    ensures
        r == (if index <= u32::MAX {
            Ok::<CommitmentHash, CheckpointArtifactError>(empty_leaf_digest(kind, index as nat))
        } else {
            Err(CheckpointArtifactError::Encoding)
        }),
{
    if index as u64 > u32::MAX as u64 {
        return Err(CheckpointArtifactError::Encoding);
    }
    let mut bytes: Vec<u8> = Vec::new();
    put_le(&mut bytes, index as u64, 4);
    assert(Seq::<u8>::empty() + le(index as nat, 4) =~= le(index as nat, 4));
    Ok(typed_hash(kind, &EMPTY_LEAF_LABEL, bytes.as_slice()))
}

pub fn node_hash(
    kind: TreeKind,
    level: u32,
    left: &CommitmentHash,
    right: &CommitmentHash,
) -> (h: CommitmentHash)
    ensures
        h == node_digest(kind, level as nat, *left, *right),
{
    let mut buffer: Vec<u8> = Vec::new();
    put_bytes(&mut buffer, &CHECKPOINT_HASH_DOMAIN_V1);
    put_bytes(&mut buffer, kind.tag());
    put_bytes(&mut buffer, &NODE_LABEL);
    put_le(&mut buffer, level as u64, 4);
    put_bytes(&mut buffer, left);
    put_bytes(&mut buffer, right);
    assert(Seq::<u8>::empty() + CHECKPOINT_HASH_DOMAIN_V1@ =~= CHECKPOINT_HASH_DOMAIN_V1@);
    hash_bytes(buffer.as_slice())
}

pub fn root_hash(kind: TreeKind, leaf_count: u32, inner: &CommitmentHash) -> (h: CommitmentHash)
    ensures
        h == root_digest(kind, leaf_count as nat, *inner),
{
    let mut buffer: Vec<u8> = Vec::new();
    put_bytes(&mut buffer, &CHECKPOINT_HASH_DOMAIN_V1);
    put_bytes(&mut buffer, kind.tag());
    put_bytes(&mut buffer, &ROOT_LABEL);
    put_le(&mut buffer, leaf_count as u64, 4);
    put_bytes(&mut buffer, inner);
    assert(Seq::<u8>::empty() + CHECKPOINT_HASH_DOMAIN_V1@ =~= CHECKPOINT_HASH_DOMAIN_V1@);
    let root = hash_bytes(buffer.as_slice());
    if kind.root_is_field() {
        mask(root)
    } else {
        root
    }
}

/// `w` doubled until it is at least `n`.
pub open spec fn width_from(w: nat, n: nat) -> nat
    decreases 2 * n - w,
{
    if w == 0 || w >= n {
        w
    } else {
        width_from(2 * w, n)
    }
}

/// The least power of two that is at least `n`, and at least one.
pub open spec fn width(n: nat) -> nat {
    width_from(1, n)
}

/// How often `len` can be halved before it is one: the depth of a tree that is
/// `len` leaves wide.
pub open spec fn halvings(len: nat) -> nat
    decreases len,
{
    if len <= 1 {
        0
    } else {
        1 + halvings(len / 2)
    }
}

/// `len` is a power of two.
pub open spec fn complete(len: nat) -> bool
    decreases len,
{
    if len <= 1 {
        len == 1
    } else {
        len % 2 == 0 && complete(len / 2)
    }
}

/// The leaf layer: the leaves, and behind them an empty leaf for every index up
/// to the width.
pub open spec fn padded(kind: TreeKind, leaves: Seq<CommitmentHash>) -> Seq<CommitmentHash> {
    Seq::new(
        width(leaves.len()),
        |i: int|
            if i < leaves.len() {
                leaves[i]
            } else {
                empty_leaf_digest(kind, i as nat)
            },
    )
}

/// The layer above `layer`.
pub open spec fn next_layer(
    kind: TreeKind,
    level: nat,
    layer: Seq<CommitmentHash>,
) -> Seq<CommitmentHash> {
    Seq::new(layer.len() / 2, |i: int| node_digest(kind, level, layer[2 * i], layer[2 * i + 1]))
}

/// What a layer folds to.
pub open spec fn fold_layer(
    kind: TreeKind,
    level: nat,
    layer: Seq<CommitmentHash>,
) -> CommitmentHash
    decreases layer.len(),
{
    if layer.len() <= 1 {
        layer[0]
    } else {
        fold_layer(kind, level + 1, next_layer(kind, level, layer))
    }
}

/// The other child of an item's parent.
pub open spec fn sibling(index: int) -> int {
    if index % 2 == 0 {
        index + 1
    } else {
        index - 1
    }
}

/// The siblings on the way from an item of a layer to the top.
pub open spec fn siblings_from(
    kind: TreeKind,
    level: nat,
    layer: Seq<CommitmentHash>,
    index: int,
) -> Seq<CommitmentHash>
    decreases layer.len(),
{
    if layer.len() <= 1 {
        Seq::empty()
    } else {
        seq![layer[sibling(index)]] + siblings_from(
            kind,
            level + 1,
            next_layer(kind, level, layer),
            index / 2,
        )
    }
}

/// Where one gets from an item by hashing with one sibling after another.
pub open spec fn climb(
    kind: TreeKind,
    level: nat,
    index: int,
    current: CommitmentHash,
    siblings: Seq<CommitmentHash>,
) -> CommitmentHash
    decreases siblings.len(),
{
    if siblings.len() == 0 {
        current
    } else {
        let parent = if index % 2 == 0 {
            node_digest(kind, level, current, siblings[0])
        } else {
            node_digest(kind, level, siblings[0], current)
        };
        climb(kind, level + 1, index / 2, parent, siblings.drop_first())
    }
}

/// The root of the tree over `leaves`.
pub open spec fn merkle_root(kind: TreeKind, leaves: Seq<CommitmentHash>) -> CommitmentHash {
    root_digest(kind, leaves.len(), fold_layer(kind, 0, padded(kind, leaves)))
}

/// What an authentication path holds.
#[verifier::ext_equal]
pub struct PathModel {
    pub leaf_index: u32,
    pub leaf_count: u32,
    pub siblings: Seq<CommitmentHash>,
}

/// The authentication path of one leaf.
pub open spec fn merkle_path(kind: TreeKind, leaves: Seq<CommitmentHash>, index: int) -> PathModel {
    PathModel {
        leaf_index: index as u32,
        leaf_count: leaves.len() as u32,
        siblings: siblings_from(kind, 0, padded(kind, leaves), index),
    }
}

/// `path` leads from `leaf` to `root`.
pub open spec fn path_verifies(
    path: PathModel,
    kind: TreeKind,
    leaf: CommitmentHash,
    root: CommitmentHash,
) -> bool {
    &&& path.leaf_index < path.leaf_count
    &&& path.siblings.len() == halvings(width(path.leaf_count as nat))
    &&& root == root_digest(
        kind,
        path.leaf_count as nat,
        climb(kind, 0, path.leaf_index as int, leaf, path.siblings),
    )
}

proof fn lemma_width_from(w: nat, n: nat)
    requires
        w >= 1,
    ensures
        width_from(w, n) >= w,
        width_from(w, n) >= n,
        complete(w) ==> complete(width_from(w, n)),
        w < 2 * n ==> width_from(w, n) < 2 * n,
    decreases 2 * n - w,
{
    if w < n {
        assert(complete(w) ==> complete(2 * w)) by {
            assert((2 * w) / 2 == w && (2 * w) % 2 == 0);
        }
        lemma_width_from(2 * w, n);
    }
}

pub proof fn lemma_width(n: nat)
    ensures
        width(n) >= 1,
        width(n) >= n,
        complete(width(n)),
        n >= 1 ==> width(n) < 2 * n,
        width(0) == 1,
{
    lemma_width_from(1, n);
}

/// `w` doubled `k` times.
spec fn doubled(w: nat, k: nat) -> nat
    decreases k,
{
    if k == 0 {
        w
    } else {
        doubled(2 * w, (k - 1) as nat)
    }
}

proof fn lemma_width_within(w: nat, k: nat, n: nat)
    requires
        w >= 1,
        n <= doubled(w, k),
    ensures
        width_from(w, n) <= doubled(w, k),
    decreases k,
{
    if k > 0 {
        if w < n {
            lemma_width_within(2 * w, (k - 1) as nat, n);
        } else {
            lemma_doubled_grows(w, k);
        }
    }
}

proof fn lemma_doubled_grows(w: nat, k: nat)
    ensures
        w <= doubled(w, k),
    decreases k,
{
    if k > 0 {
        lemma_doubled_grows(2 * w, (k - 1) as nat);
    }
}

/// A tree whose leaves are counted in 32 bits is at most 2^32 leaves wide.
proof fn lemma_width_not_above_u32(n: nat)
    requires
        n <= u32::MAX,
    ensures
        width(n) <= 0x1_0000_0000,
{
    assert(doubled(1, 32) == 0x1_0000_0000) by {
        reveal_with_fuel(doubled, 33);
    }
    lemma_width_within(1, 32, n);
}

pub proof fn lemma_halvings_bound(len: nat)
    ensures
        halvings(len) <= len / 2,
    decreases len,
{
    if len > 1 {
        lemma_halvings_bound(len / 2);
    }
}

pub proof fn lemma_siblings_len(
    kind: TreeKind,
    level: nat,
    layer: Seq<CommitmentHash>,
    index: int,
)
    ensures
        siblings_from(kind, level, layer, index).len() == halvings(layer.len()),
    decreases layer.len(),
{
    if layer.len() > 1 {
        lemma_siblings_len(kind, level + 1, next_layer(kind, level, layer), index / 2);
    }
}

proof fn lemma_climb_reaches_fold(
    kind: TreeKind,
    level: nat,
    layer: Seq<CommitmentHash>,
    index: int,
)
    requires
        complete(layer.len()),
        0 <= index < layer.len(),
    ensures
        climb(kind, level, index, layer[index], siblings_from(kind, level, layer, index))
            == fold_layer(kind, level, layer),
    decreases layer.len(),
{
    if layer.len() > 1 {
        let next = next_layer(kind, level, layer);
        lemma_climb_reaches_fold(kind, level + 1, next, index / 2);
        let siblings = siblings_from(kind, level, layer, index);
        assert(siblings.drop_first() =~= siblings_from(kind, level + 1, next, index / 2));
        assert(siblings[0] == layer[sibling(index)]);
        assert(next[index / 2] == node_digest(
            kind,
            level,
            layer[2 * (index / 2)],
            layer[2 * (index / 2) + 1],
        ));
    }
}

/// The path of every leaf of a tree leads from that leaf to the tree's root.
pub proof fn every_path_verifies(kind: TreeKind, leaves: Seq<CommitmentHash>, index: int)
    requires
        0 <= index < leaves.len() <= u32::MAX,
    ensures
        path_verifies(
            merkle_path(kind, leaves, index),
            kind,
            leaves[index],
            merkle_root(kind, leaves),
        ),
{
    let layer = padded(kind, leaves);
    lemma_width(leaves.len());
    lemma_siblings_len(kind, 0, layer, index);
    lemma_climb_reaches_fold(kind, 0, layer, index);
}

/// A root that is read as a scalar-field element has its three high-order bits
/// clear.
pub proof fn field_roots_are_masked(kind: TreeKind, leaves: Seq<CommitmentHash>)
    requires
        has_field_root(kind),
    ensures
        merkle_root(kind, leaves)[0] <= 0x1f,
{
    let digest = sha256(
        CHECKPOINT_HASH_DOMAIN_V1@ + tag_bytes(kind) + ROOT_LABEL@ + le(leaves.len(), 4)
            + fold_layer(kind, 0, padded(kind, leaves))@,
    );
    let high: u8 = digest[0];
    assert(high & 0x1fu8 <= 0x1fu8) by (bit_vector);
    assert(masked(digest)[0] == high & 0x1fu8);
}

/// The path of one leaf to the root of the tree that holds it.
#[derive(Clone, Debug, PartialEq, Eq)]
pub struct MerkleAuthenticationPathV1 {
    pub leaf_index: u32,
    pub leaf_count: u32,
    pub siblings: Vec<CommitmentHash>,
}

impl View for MerkleAuthenticationPathV1 {
    type V = PathModel;

    open spec fn view(&self) -> PathModel {
        PathModel {
            leaf_index: self.leaf_index,
            leaf_count: self.leaf_count,
            siblings: self.siblings@,
        }
    }
}

impl MerkleAuthenticationPathV1 {
    pub fn verify(
        &self,
        kind: TreeKind,
        leaf_hash: CommitmentHash,
        expected_root: CommitmentHash,
    ) -> (ok: bool)
        ensures
            ok == path_verifies(self@, kind, leaf_hash, expected_root),
    {
        if self.leaf_count == 0 || self.leaf_index >= self.leaf_count {
            return false;
        }
        let depth: u32 = tree_depth(self.leaf_count);
        if self.siblings.len() as u64 != depth as u64 {
            return false;
        }
        let mut index: u32 = self.leaf_index;
        let mut current = leaf_hash;
        let mut level: u32 = 0;
        assert(self.siblings@.skip(0) =~= self.siblings@);
        while level < depth
            invariant
                level <= depth,
                self.siblings@.len() == depth,
                climb(kind, 0, self.leaf_index as int, leaf_hash, self.siblings@) == climb(
                    kind,
                    level as nat,
                    index as int,
                    current,
                    self.siblings@.skip(level as int),
                ),
            decreases depth - level,
        {
            let sibling = &self.siblings[level as usize];
            assert(self.siblings@.skip(level as int).drop_first() =~= self.siblings@.skip(
                level + 1,
            ));
            current = if index % 2 == 0 {
                node_hash(kind, level, &current, sibling)
            } else {
                node_hash(kind, level, sibling, &current)
            };
            index = index / 2;
            level += 1;
        }
        same_array(&root_hash(kind, self.leaf_count, &current), &expected_root)
    }
}

/// The depth of a tree of `leaf_count` leaves.
fn tree_depth(leaf_count: u32) -> (depth: u32)
    ensures
        depth as nat == halvings(width(leaf_count as nat)),
{
    let mut w: u64 = 1;
    let mut depth: u32 = 0;
    while w < leaf_count as u64
        invariant
            w >= 1,
            width_from(w as nat, leaf_count as nat) == width(leaf_count as nat),
            halvings(w as nat) == depth,
            w < 0x2_0000_0000,
            depth <= w,
        decreases 2 * leaf_count - w,
    {
        w = 2 * w;
        depth = depth + 1;
        assert((w / 2) as nat == w as nat / 2);
    }
    depth
}

/// The least power of two that is at least `n`, and at least one.
fn tree_width(n: u32) -> (w: u64)
    ensures
        w as nat == width(n as nat),
        w <= 0x1_0000_0000,
{
    proof {
        lemma_width_not_above_u32(n as nat);
    }
    let mut w: u64 = 1;
    while w < n as u64
        invariant
            1 <= w < 0x2_0000_0000,
            width_from(w as nat, n as nat) == width(n as nat),
        decreases 2 * n - w,
    {
        w = 2 * w;
    }
    w
}

/// A tree can have this many leaves: they are counted in 32 bits, and the machine
/// can address the layer that they are filled up to.
pub open spec fn tree_fits(leaf_count: nat) -> bool {
    leaf_count <= u32::MAX && width(leaf_count) <= usize::MAX
}

/// A tree with all its layers, leaves first.
pub struct MerkleTree {
    kind: TreeKind,
    leaf_count: u32,
    layers: Vec<Vec<CommitmentHash>>,
}

impl MerkleTree {
    pub closed spec fn kind(&self) -> TreeKind {
        self.kind
    }

    pub closed spec fn leaves(&self) -> Seq<CommitmentHash> {
        self.layers@[0]@.take(self.leaf_count as int)
    }

    /// Each layer is the one that the layer below it gives, and the last holds
    /// one hash.
    pub closed spec fn well_formed(&self) -> bool {
        &&& self.layers@.len() >= 1
        &&& self.leaf_count <= self.layers@[0]@.len()
        &&& self.layers@[0]@ == padded(self.kind, self.leaves())
        &&& forall|l: int|
            0 <= l < self.layers@.len() - 1 ==> (#[trigger] self.layers@[l + 1])@ == next_layer(
                self.kind,
                l as nat,
                self.layers@[l]@,
            )
        &&& forall|l: int|
            0 <= l < self.layers@.len() - 1 ==> (#[trigger] self.layers@[l])@.len() > 1
        &&& self.layers@.last()@.len() == 1
    }

    /// The tree over the leaves, or `Encoding` if there are more than a tree can
    /// have.
    pub fn new(kind: TreeKind, leaves: Vec<CommitmentHash>) -> (r: Result<
        Self,
        CheckpointArtifactError,
    >)
        ensures
            !tree_fits(leaves@.len()) ==> r == Err::<Self, _>(CheckpointArtifactError::Encoding),
            tree_fits(leaves@.len()) ==> {
                &&& r matches Ok(tree)
                &&& tree.well_formed()
                &&& tree.kind() == kind
                &&& tree.leaves() == leaves@
            },
    {
        if leaves.len() as u64 > u32::MAX as u64 {
            return Err(CheckpointArtifactError::Encoding);
        }
        let leaf_count: u32 = leaves.len() as u32;
        let ghost all = leaves@;
        let whole: u64 = tree_width(leaf_count);
        if whole > usize::MAX as u64 {
            return Err(CheckpointArtifactError::Encoding);
        }
        let wide: usize = whole as usize;
        proof {
            lemma_width(all.len());
        }
        let mut leaf_layer = leaves;
        while leaf_layer.len() < wide
            invariant
                all.len() <= leaf_layer@.len() <= wide == width(all.len()),
                wide <= 0x1_0000_0000,
                leaf_layer@ == padded(kind, all).take(leaf_layer@.len() as int),
            decreases wide - leaf_layer@.len(),
        {
            let index: usize = leaf_layer.len();
            let leaf = empty_leaf_hash(kind, index)?;
            leaf_layer.push(leaf);
            assert(leaf_layer@ =~= padded(kind, all).take(index + 1));
        }
        assert(leaf_layer@ =~= padded(kind, all));
        assert(leaf_layer@.take(leaf_count as int) =~= all);
        let mut layers: Vec<Vec<CommitmentHash>> = Vec::new();
        layers.push(leaf_layer);
        let mut level: u32 = 0;
        proof {
            lemma_halvings_bound(wide as nat / 2);
        }
        while layers[level as usize].len() > 1
            invariant
                layers@.len() == level + 1,
                layers@[0]@ == padded(kind, all),
                forall|l: int|
                    0 <= l < level ==> (#[trigger] layers@[l + 1])@ == next_layer(
                        kind,
                        l as nat,
                        layers@[l]@,
                    ),
                forall|l: int| 0 <= l < level ==> (#[trigger] layers@[l])@.len() > 1,
                complete(layers@[level as int]@.len()),
                level + halvings(layers@[level as int]@.len()) == halvings(wide as nat),
                halvings(wide as nat) <= u32::MAX,
            decreases layers@[level as int]@.len(),
        {
            let next = hash_pairs(kind, level, &layers[level as usize]);
            layers.push(next);
            level = match level.checked_add(1) {
                Some(level) => level,
                None => {
                    return Err(CheckpointArtifactError::Encoding);
                },
            };
        }
        Ok(MerkleTree { kind, leaf_count, layers })
    }

    pub fn root(&self) -> (root: CommitmentHash)
        requires
            self.well_formed(),
        ensures
            root == merkle_root(self.kind(), self.leaves()),
    {
        let top: usize = self.layers.len() - 1;
        proof {
            self.lemma_fold(top as int);
        }
        root_hash(self.kind, self.leaf_count, &self.layers[top][0])
    }

    pub fn path(&self, leaf_index: usize) -> (r: Result<
        MerkleAuthenticationPathV1,
        CheckpointArtifactError,
    >)
        requires
            self.well_formed(),
        ensures
            leaf_index >= self.leaves().len() ==> r == Err::<MerkleAuthenticationPathV1, _>(
                CheckpointArtifactError::InvalidPage,
            ),
            leaf_index < self.leaves().len() ==> {
                &&& r matches Ok(path)
                &&& path@ == merkle_path(self.kind(), self.leaves(), leaf_index as int)
            },
    {
        if leaf_index as u64 >= self.leaf_count as u64 {
            return Err(CheckpointArtifactError::InvalidPage);
        }
        let mut index: usize = leaf_index;
        let mut siblings: Vec<CommitmentHash> = Vec::new();
        let top: usize = self.layers.len() - 1;
        let mut level: usize = 0;
        let ghost all = siblings_from(self.kind, 0, self.layers@[0]@, leaf_index as int);
        assert(siblings@ + all =~= all);
        proof {
            lemma_width(self.leaves().len());
        }
        while level < top
            invariant
                self.well_formed(),
                level <= top == self.layers@.len() - 1,
                index < self.layers@[level as int]@.len(),
                complete(self.layers@[level as int]@.len()),
                siblings@ + siblings_from(
                    self.kind,
                    level as nat,
                    self.layers@[level as int]@,
                    index as int,
                ) == all,
            decreases top - level,
        {
            let layer = &self.layers[level];
            let ghost before = siblings@;
            let ghost rest = siblings_from(
                self.kind,
                (level + 1) as nat,
                self.layers@[level + 1]@,
                index as int / 2,
            );
            let other: usize = if index % 2 == 0 {
                index + 1
            } else {
                index - 1
            };
            siblings.push(layer[other]);
            assert(siblings@ + rest =~= before + (seq![layer@[sibling(index as int)]] + rest));
            index = index / 2;
            level += 1;
        }
        assert(siblings@ =~= all);
        Ok(MerkleAuthenticationPathV1 {
            leaf_index: leaf_index as u32,
            leaf_count: self.leaf_count,
            siblings,
        })
    }

    proof fn lemma_fold(&self, level: int)
        requires
            self.well_formed(),
            0 <= level < self.layers@.len(),
        ensures
            fold_layer(self.kind, 0, self.layers@[0]@) == fold_layer(
                self.kind,
                level as nat,
                self.layers@[level]@,
            ),
        decreases level,
    {
        if level > 0 {
            self.lemma_fold(level - 1);
            assert(self.layers@[level - 1]@.len() > 1);
            assert(self.layers@[level - 1 + 1]@ == next_layer(
                self.kind,
                (level - 1) as nat,
                self.layers@[level - 1]@,
            ));
        }
    }
}

/// The layer above `layer`.
fn hash_pairs(kind: TreeKind, level: u32, layer: &Vec<CommitmentHash>) -> (next: Vec<
    CommitmentHash,
>)
    ensures
        next@ == next_layer(kind, level as nat, layer@),
{
    let mut next: Vec<CommitmentHash> = Vec::new();
    let count: usize = layer.len() / 2;
    let mut i: usize = 0;
    while i < count
        invariant
            i <= count == layer@.len() / 2,
            layer@.len() <= usize::MAX,
            next@ == next_layer(kind, level as nat, layer@).take(i as int),
        decreases count - i,
    {
        let node = node_hash(kind, level, &layer[2 * i], &layer[2 * i + 1]);
        next.push(node);
        i += 1;
        assert(next@ =~= next_layer(kind, level as nat, layer@).take(i as int));
    }
    assert(next@ =~= next_layer(kind, level as nat, layer@));
    next
}

} // verus!

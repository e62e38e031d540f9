//! Canonical encoding of checkpoint artifacts.

use vstd::prelude::*;

use crate::checkpoint::{
    ArtifactModel, AuthenticatedReadonlyL1ValueV1, AuthenticatedReadonlyModel,
    AuthenticatedSettlementEffectV1, AuthenticatedSettlementModel, CheckpointAccountEffectV1,
    CheckpointArtifactV1, CheckpointCommitmentV1, CheckpointTransactionEffectV1, DaCodecV1,
    DaManifestV1, DaPackageV1, DaPageDescriptorV1, DaStepPageV1, ManifestModel, PackageModel,
    PageModel, ReadonlyL1ValueV1, StateAccountValueV1, TransactionEffectModel,
};
use crate::codec::{holds_at, lemma_append_assoc, Codec};
use crate::merkle::{MerkleAuthenticationPathV1, PathModel};

verus! {

impl Codec for DaCodecV1 {
    type Model = DaCodecV1;

    open spec fn model(&self) -> DaCodecV1 {
        *self
    }

    open spec fn encodable(m: DaCodecV1) -> bool {
        true
    }

    open spec fn wire(m: DaCodecV1) -> Seq<u8> {
        seq![0u8]
    }

    proof fn prefix_free(a: DaCodecV1, b: DaCodecV1, bytes: Seq<u8>, pos: int) {
    }

    fn encode(&self, out: &mut Vec<u8>) -> (ok: bool) {
        out.push(0);
        assert(out@ =~= old(out)@ + seq![0u8]);
        true
    }

    fn decode(bytes: &[u8], pos: usize) -> (r: Option<(Self, usize)>) {
        if pos >= bytes.len() {
            return None;
        }
        assert(bytes@.subrange(pos as int, pos + 1) =~= seq![bytes@[pos as int]]);
        assert(forall|m: DaCodecV1|
            holds_at(bytes@, pos as int, #[trigger] Self::wire(m)) ==> Self::wire(m)[0]
                == bytes@[pos as int]);
        if bytes[pos] == 0 {
            Some((DaCodecV1::Raw, pos + 1))
        } else {
            None
        }
    }
}

/// The fields of a read-only value, in the order in which they are written.
pub type ReadonlyValueFields = ([u8; 32], ([u8; 32], (u64, ([u8; 32], u64))));

pub open spec fn readonly_value_fields(
    m: ReadonlyL1ValueV1,
) -> <ReadonlyValueFields as Codec>::Model {
    (m.account, (m.owner, (m.lamports, (m.data_hash, m.observed_l1_slot))))
}

impl Codec for ReadonlyL1ValueV1 {
    type Model = ReadonlyL1ValueV1;

    open spec fn model(&self) -> ReadonlyL1ValueV1 {
        *self
    }

    open spec fn encodable(m: ReadonlyL1ValueV1) -> bool {
        ReadonlyValueFields::encodable(readonly_value_fields(m))
    }

    open spec fn wire(m: ReadonlyL1ValueV1) -> Seq<u8> {
        ReadonlyValueFields::wire(readonly_value_fields(m))
    }

    proof fn prefix_free(a: ReadonlyL1ValueV1, b: ReadonlyL1ValueV1, bytes: Seq<u8>, pos: int) {
        ReadonlyValueFields::prefix_free(
            readonly_value_fields(a),
            readonly_value_fields(b),
            bytes,
            pos,
        );
    }

    fn encode(&self, out: &mut Vec<u8>) -> (ok: bool) {
        self.account.encode(out)
            && self.owner.encode(out)
            && self.lamports.encode(out)
            && self.data_hash.encode(out)
            && self.observed_l1_slot.encode(out)
    }

    fn decode(bytes: &[u8], pos: usize) -> (r: Option<(Self, usize)>) {
        match ReadonlyValueFields::decode(bytes, pos) {
            Some(((account, (owner, (lamports, (data_hash, observed_l1_slot)))), end)) => {
                let value = ReadonlyL1ValueV1 {
                    account,
                    owner,
                    lamports,
                    data_hash,
                    observed_l1_slot,
                };
                Some((value, end))
            },
            None => None,
        }
    }
}

/// The fields of an account of the state, in the order in which they are written.
pub type StateAccountFields = ([u8; 32], ([u8; 32], (u64, (bool, (u64, [u8; 32])))));

pub open spec fn state_account_fields(
    m: StateAccountValueV1,
) -> <StateAccountFields as Codec>::Model {
    (m.account, (m.owner, (m.lamports, (m.executable, (m.rent_epoch, m.data_hash)))))
}

impl Codec for StateAccountValueV1 {
    type Model = StateAccountValueV1;

    open spec fn model(&self) -> StateAccountValueV1 {
        *self
    }

    open spec fn encodable(m: StateAccountValueV1) -> bool {
        StateAccountFields::encodable(state_account_fields(m))
    }

    open spec fn wire(m: StateAccountValueV1) -> Seq<u8> {
        StateAccountFields::wire(state_account_fields(m))
    }

    proof fn prefix_free(a: StateAccountValueV1, b: StateAccountValueV1, bytes: Seq<u8>, pos: int) {
        StateAccountFields::prefix_free(
            state_account_fields(a),
            state_account_fields(b),
            bytes,
            pos,
        );
    }

    fn encode(&self, out: &mut Vec<u8>) -> (ok: bool) {
        self.account.encode(out)
            && self.owner.encode(out)
            && self.lamports.encode(out)
            && self.executable.encode(out)
            && self.rent_epoch.encode(out)
            && self.data_hash.encode(out)
    }

    fn decode(bytes: &[u8], pos: usize) -> (r: Option<(Self, usize)>) {
        match StateAccountFields::decode(bytes, pos) {
            Some(((account, (owner, (lamports, (executable, (rent_epoch, data_hash))))), end)) => {
                let value = StateAccountValueV1 {
                    account,
                    owner,
                    lamports,
                    executable,
                    rent_epoch,
                    data_hash,
                };
                Some((value, end))
            },
            None => None,
        }
    }
}

/// The fields of an account effect, in the order in which they are written.
pub type AccountEffectFields = (u32, (StateAccountValueV1, bool));

pub open spec fn account_effect_fields(
    m: CheckpointAccountEffectV1,
) -> <AccountEffectFields as Codec>::Model {
    (m.step_index, (m.value, m.deleted))
}

impl Codec for CheckpointAccountEffectV1 {
    type Model = CheckpointAccountEffectV1;

    open spec fn model(&self) -> CheckpointAccountEffectV1 {
        *self
    }

    open spec fn encodable(m: CheckpointAccountEffectV1) -> bool {
        AccountEffectFields::encodable(account_effect_fields(m))
    }

    open spec fn wire(m: CheckpointAccountEffectV1) -> Seq<u8> {
        AccountEffectFields::wire(account_effect_fields(m))
    }

    proof fn prefix_free(
        a: CheckpointAccountEffectV1,
        b: CheckpointAccountEffectV1,
        bytes: Seq<u8>,
        pos: int,
    ) {
        AccountEffectFields::prefix_free(
            account_effect_fields(a),
            account_effect_fields(b),
            bytes,
            pos,
        );
    }

    fn encode(&self, out: &mut Vec<u8>) -> (ok: bool) {
        self.step_index.encode(out) && self.value.encode(out) && self.deleted.encode(out)
    }

    fn decode(bytes: &[u8], pos: usize) -> (r: Option<(Self, usize)>) {
        match AccountEffectFields::decode(bytes, pos) {
            Some(((step_index, (value, deleted)), end)) => {
                Some((CheckpointAccountEffectV1 { step_index, value, deleted }, end))
            },
            None => None,
        }
    }
}

/// The fields of a transaction effect, in the order in which they are written.
pub type TransactionEffectFields = (u8, (u32, ([u8; 32], (u64, Vec<CheckpointAccountEffectV1>))));

pub open spec fn transaction_effect_fields(
    m: TransactionEffectModel,
) -> <TransactionEffectFields as Codec>::Model {
    (m.version, (m.step_index, (m.transaction_hash, (m.executed_units, m.account_effects))))
}

impl Codec for CheckpointTransactionEffectV1 {
    type Model = TransactionEffectModel;

    open spec fn model(&self) -> TransactionEffectModel {
        self@
    }

    open spec fn encodable(m: TransactionEffectModel) -> bool {
        TransactionEffectFields::encodable(transaction_effect_fields(m))
    }

    open spec fn wire(m: TransactionEffectModel) -> Seq<u8> {
        TransactionEffectFields::wire(transaction_effect_fields(m))
    }

    proof fn prefix_free(
        a: TransactionEffectModel,
        b: TransactionEffectModel,
        bytes: Seq<u8>,
        pos: int,
    ) {
        TransactionEffectFields::prefix_free(
            transaction_effect_fields(a),
            transaction_effect_fields(b),
            bytes,
            pos,
        );
        assert(a =~= b);
    }

    fn encode(&self, out: &mut Vec<u8>) -> (ok: bool) {
        assert(self.account_effects.model() =~= self@.account_effects);
        self.version.encode(out)
            && self.step_index.encode(out)
            && self.transaction_hash.encode(out)
            && self.executed_units.encode(out)
            && self.account_effects.encode(out)
    }

    fn decode(bytes: &[u8], pos: usize) -> (r: Option<(Self, usize)>) {
        match TransactionEffectFields::decode(bytes, pos) {
            Some((fields, end)) => {
                let
                    (version, (step_index, (transaction_hash,
                    (executed_units, account_effects)))): TransactionEffectFields = fields;
                let value = CheckpointTransactionEffectV1 {
                    version,
                    step_index,
                    transaction_hash,
                    executed_units,
                    account_effects,
                };
                assert(value.account_effects.model() =~= value@.account_effects);
                Some((value, end))
            },
            None => None,
        }
    }
}

/// The fields of an authentication path, in the order in which they are written.
pub type PathFields = (u32, (u32, Vec<[u8; 32]>));

pub open spec fn path_fields(m: PathModel) -> <PathFields as Codec>::Model {
    (m.leaf_index, (m.leaf_count, m.siblings))
}

impl Codec for MerkleAuthenticationPathV1 {
    type Model = PathModel;

    open spec fn model(&self) -> PathModel {
        self@
    }

    open spec fn encodable(m: PathModel) -> bool {
        PathFields::encodable(path_fields(m))
    }

    open spec fn wire(m: PathModel) -> Seq<u8> {
        PathFields::wire(path_fields(m))
    }

    proof fn prefix_free(a: PathModel, b: PathModel, bytes: Seq<u8>, pos: int) {
        PathFields::prefix_free(path_fields(a), path_fields(b), bytes, pos);
        assert(a =~= b);
    }

    fn encode(&self, out: &mut Vec<u8>) -> (ok: bool) {
        assert(self.siblings.model() =~= self@.siblings);
        self.leaf_index.encode(out) && self.leaf_count.encode(out) && self.siblings.encode(out)
    }

    fn decode(bytes: &[u8], pos: usize) -> (r: Option<(Self, usize)>) {
        match PathFields::decode(bytes, pos) {
            Some(((leaf_index, (leaf_count, siblings)), end)) => {
                let value = MerkleAuthenticationPathV1 { leaf_index, leaf_count, siblings };
                assert(value.siblings.model() =~= value@.siblings);
                Some((value, end))
            },
            None => None,
        }
    }
}

/// The fields of an authenticated read-only value, in the order in which they are written.
pub type ReadonlyEntryFields = (u32, (u32, (ReadonlyL1ValueV1, MerkleAuthenticationPathV1)));

pub open spec fn readonly_entry_fields(
    m: AuthenticatedReadonlyModel,
) -> <ReadonlyEntryFields as Codec>::Model {
    (m.global_index, (m.value_index, (m.value, m.path)))
}

impl Codec for AuthenticatedReadonlyL1ValueV1 {
    type Model = AuthenticatedReadonlyModel;

    open spec fn model(&self) -> AuthenticatedReadonlyModel {
        self@
    }

    open spec fn encodable(m: AuthenticatedReadonlyModel) -> bool {
        ReadonlyEntryFields::encodable(readonly_entry_fields(m))
    }

    open spec fn wire(m: AuthenticatedReadonlyModel) -> Seq<u8> {
        ReadonlyEntryFields::wire(readonly_entry_fields(m))
    }

    proof fn prefix_free(
        a: AuthenticatedReadonlyModel,
        b: AuthenticatedReadonlyModel,
        bytes: Seq<u8>,
        pos: int,
    ) {
        ReadonlyEntryFields::prefix_free(
            readonly_entry_fields(a),
            readonly_entry_fields(b),
            bytes,
            pos,
        );
        assert(a =~= b);
    }

    fn encode(&self, out: &mut Vec<u8>) -> (ok: bool) {
        self.global_index.encode(out)
            && self.value_index.encode(out)
            && self.value.encode(out)
            && self.path.encode(out)
    }

    fn decode(bytes: &[u8], pos: usize) -> (r: Option<(Self, usize)>) {
        match ReadonlyEntryFields::decode(bytes, pos) {
            Some(((global_index, (value_index, (value, path))), end)) => {
                let value = AuthenticatedReadonlyL1ValueV1 {
                    global_index,
                    value_index,
                    value,
                    path,
                };
                Some((value, end))
            },
            None => None,
        }
    }
}

/// The fields of an authenticated settlement effect, in the order in which they are written.
pub type SettlementEntryFields = (u32, (u32, (Vec<u8>, MerkleAuthenticationPathV1)));

pub open spec fn settlement_entry_fields(
    m: AuthenticatedSettlementModel,
) -> <SettlementEntryFields as Codec>::Model {
    (m.global_index, (m.effect_index, (m.effect, m.path)))
}

impl Codec for AuthenticatedSettlementEffectV1 {
    type Model = AuthenticatedSettlementModel;

    open spec fn model(&self) -> AuthenticatedSettlementModel {
        self@
    }

    open spec fn encodable(m: AuthenticatedSettlementModel) -> bool {
        SettlementEntryFields::encodable(settlement_entry_fields(m))
    }

    open spec fn wire(m: AuthenticatedSettlementModel) -> Seq<u8> {
        SettlementEntryFields::wire(settlement_entry_fields(m))
    }

    proof fn prefix_free(
        a: AuthenticatedSettlementModel,
        b: AuthenticatedSettlementModel,
        bytes: Seq<u8>,
        pos: int,
    ) {
        SettlementEntryFields::prefix_free(
            settlement_entry_fields(a),
            settlement_entry_fields(b),
            bytes,
            pos,
        );
        assert(a =~= b);
    }

    fn encode(&self, out: &mut Vec<u8>) -> (ok: bool) {
        assert(self.effect.model() =~= self@.effect);
        self.global_index.encode(out)
            && self.effect_index.encode(out)
            && self.effect.encode(out)
            && self.path.encode(out)
    }

    fn decode(bytes: &[u8], pos: usize) -> (r: Option<(Self, usize)>) {
        match SettlementEntryFields::decode(bytes, pos) {
            Some(((global_index, (effect_index, (effect, path))), end)) => {
                let value = AuthenticatedSettlementEffectV1 {
                    global_index,
                    effect_index,
                    effect,
                    path,
                };
                assert(value.effect.model() =~= value@.effect);
                Some((value, end))
            },
            None => None,
        }
    }
}

/// What a page says of its step.
pub type PageClaims =
    (u8, (u32, (u32, (Vec<u8>, (Vec<u8>, ([u8; 32], ([u8; 32], [u8; 32])))))));

/// What shows that the step belongs to the checkpoint.
pub type PageWitness =
    (MerkleAuthenticationPathV1, (MerkleAuthenticationPathV1, (MerkleAuthenticationPathV1,
    (Vec<AuthenticatedReadonlyL1ValueV1>, Vec<AuthenticatedSettlementEffectV1>))));

/// The fields of a page, in the order in which they are written.
pub type PageFields = (PageClaims, PageWitness);

pub open spec fn page_claims(m: PageModel) -> <PageClaims as Codec>::Model {
    (m.version, (m.page_index, (m.step_index, (m.transaction, (m.transaction_effect,
    (m.transaction_effect_commitment, (m.pre_state_root, m.post_state_root)))))))
}

pub open spec fn page_witness(m: PageModel) -> <PageWitness as Codec>::Model {
    (m.pre_state_path, (m.post_state_path, (m.transaction_effect_path,
    (m.readonly_l1_values, m.settlement_effects))))
}

pub open spec fn page_fields(m: PageModel) -> <PageFields as Codec>::Model {
    (page_claims(m), page_witness(m))
}

impl DaStepPageV1 {
    fn encode_claims(&self, out: &mut Vec<u8>) -> (ok: bool)
        ensures
            ok == PageClaims::encodable(page_claims(self@)),
            ok ==> final(out)@ == old(out)@ + PageClaims::wire(page_claims(self@)),
    {
        assert(self.transaction.model() =~= self@.transaction);
        assert(self.transaction_effect.model() =~= self@.transaction_effect);
        self.version.encode(out)
            && self.page_index.encode(out)
            && self.step_index.encode(out)
            && self.transaction.encode(out)
            && self.transaction_effect.encode(out)
            && self.transaction_effect_commitment.encode(out)
            && self.pre_state_root.encode(out)
            && self.post_state_root.encode(out)
    }

    fn encode_witness(&self, out: &mut Vec<u8>) -> (ok: bool)
        ensures
            ok == PageWitness::encodable(page_witness(self@)),
            ok ==> final(out)@ == old(out)@ + PageWitness::wire(page_witness(self@)),
    {
        assert(self.readonly_l1_values.model() =~= self@.readonly_l1_values);
        assert(self.settlement_effects.model() =~= self@.settlement_effects);
        if !(self.pre_state_path.encode(out)
            && self.post_state_path.encode(out)
            && self.transaction_effect_path.encode(out)) {
            return false;
        }
        let ghost paths = out@;
        if !(self.readonly_l1_values.encode(out) && self.settlement_effects.encode(out)) {
            return false;
        }
        proof {
            let m = self@;
            let values = Vec::<AuthenticatedReadonlyL1ValueV1>::wire(m.readonly_l1_values);
            let effects = Vec::<AuthenticatedSettlementEffectV1>::wire(m.settlement_effects);
            lemma_append_assoc(paths, values, effects);
        }
        true
    }
}

impl Codec for DaStepPageV1 {
    type Model = PageModel;

    open spec fn model(&self) -> PageModel {
        self@
    }

    open spec fn encodable(m: PageModel) -> bool {
        PageFields::encodable(page_fields(m))
    }

    open spec fn wire(m: PageModel) -> Seq<u8> {
        PageFields::wire(page_fields(m))
    }

    proof fn prefix_free(a: PageModel, b: PageModel, bytes: Seq<u8>, pos: int) {
        PageFields::prefix_free(page_fields(a), page_fields(b), bytes, pos);
        assert(a =~= b);
    }

    fn encode(&self, out: &mut Vec<u8>) -> (ok: bool) {
        self.encode_claims(out) && self.encode_witness(out)
    }

    fn decode(bytes: &[u8], pos: usize) -> (r: Option<(Self, usize)>) {
        match PageFields::decode(bytes, pos) {
            Some(((claims, witness), end)) => {
                let (version, (page_index, (step_index, (transaction, (transaction_effect,
                    (transaction_effect_commitment, (pre_state_root, post_state_root))))))):
                    PageClaims = claims;
                let (pre_state_path, (post_state_path, (transaction_effect_path,
                    (readonly_l1_values, settlement_effects)))): PageWitness = witness;
                let value = DaStepPageV1 {
                    version,
                    page_index,
                    step_index,
                    transaction,
                    transaction_effect,
                    transaction_effect_commitment,
                    pre_state_root,
                    post_state_root,
                    pre_state_path,
                    post_state_path,
                    transaction_effect_path,
                    readonly_l1_values,
                    settlement_effects,
                };
                assert(value.transaction.model() =~= value@.transaction);
                assert(value.transaction_effect.model() =~= value@.transaction_effect);
                assert(value.readonly_l1_values.model() =~= value@.readonly_l1_values);
                assert(value.settlement_effects.model() =~= value@.settlement_effects);
                Some((value, end))
            },
            None => None,
        }
    }
}

/// The fields of a page descriptor, in the order in which they are written.
pub type DescriptorFields = (u32, (u32, (u32, (u32, [u8; 32]))));

pub open spec fn descriptor_fields(m: DaPageDescriptorV1) -> <DescriptorFields as Codec>::Model {
    (m.page_index, (m.step_index, (m.uncompressed_len, (m.encoded_len, m.payload_hash))))
}

impl Codec for DaPageDescriptorV1 {
    type Model = DaPageDescriptorV1;

    open spec fn model(&self) -> DaPageDescriptorV1 {
        *self
    }

    open spec fn encodable(m: DaPageDescriptorV1) -> bool {
        DescriptorFields::encodable(descriptor_fields(m))
    }

    open spec fn wire(m: DaPageDescriptorV1) -> Seq<u8> {
        DescriptorFields::wire(descriptor_fields(m))
    }

    proof fn prefix_free(a: DaPageDescriptorV1, b: DaPageDescriptorV1, bytes: Seq<u8>, pos: int) {
        DescriptorFields::prefix_free(descriptor_fields(a), descriptor_fields(b), bytes, pos);
    }

    fn encode(&self, out: &mut Vec<u8>) -> (ok: bool) {
        self.page_index.encode(out)
            && self.step_index.encode(out)
            && self.uncompressed_len.encode(out)
            && self.encoded_len.encode(out)
            && self.payload_hash.encode(out)
    }

    fn decode(bytes: &[u8], pos: usize) -> (r: Option<(Self, usize)>) {
        match DescriptorFields::decode(bytes, pos) {
            Some((fields, end)) => {
                let
                    (page_index, (step_index, (uncompressed_len,
                    (encoded_len, payload_hash)))): DescriptorFields = fields;
                let value = DaPageDescriptorV1 {
                    page_index,
                    step_index,
                    uncompressed_len,
                    encoded_len,
                    payload_hash,
                };
                Some((value, end))
            },
            None => None,
        }
    }
}

/// The fields of a manifest, in the order in which they are written.
pub type ManifestFields =
    (u8, ([u8; 32], (u64, (u32, (DaCodecV1, ([u8; 32], ([u8; 32], ([u8; 32], ([u8; 32], ([u8; 32],
    Vec<DaPageDescriptorV1>))))))))));

pub open spec fn manifest_fields(m: ManifestModel) -> <ManifestFields as Codec>::Model {
    (m.version, (m.session, (m.er_slot, (m.step_count, (m.codec, (m.dictionary_hash,
    (m.trace_root, (m.transaction_effect_root, (m.readonly_l1_root, (m.effect_commitment,
    m.pages))))))))))
}

impl Codec for DaManifestV1 {
    type Model = ManifestModel;

    open spec fn model(&self) -> ManifestModel {
        self@
    }

    open spec fn encodable(m: ManifestModel) -> bool {
        ManifestFields::encodable(manifest_fields(m))
    }

    open spec fn wire(m: ManifestModel) -> Seq<u8> {
        ManifestFields::wire(manifest_fields(m))
    }

    proof fn prefix_free(a: ManifestModel, b: ManifestModel, bytes: Seq<u8>, pos: int) {
        ManifestFields::prefix_free(manifest_fields(a), manifest_fields(b), bytes, pos);
        assert(a =~= b);
    }

    fn encode(&self, out: &mut Vec<u8>) -> (ok: bool) {
        assert(self.pages.model() =~= self@.pages);
        self.version.encode(out)
            && self.session.encode(out)
            && self.er_slot.encode(out)
            && self.step_count.encode(out)
            && self.codec.encode(out)
            && self.dictionary_hash.encode(out)
            && self.trace_root.encode(out)
            && self.transaction_effect_root.encode(out)
            && self.readonly_l1_root.encode(out)
            && self.effect_commitment.encode(out)
            && self.pages.encode(out)
    }

    fn decode(bytes: &[u8], pos: usize) -> (r: Option<(Self, usize)>) {
        match ManifestFields::decode(bytes, pos) {
            Some((fields, end)) => {
                let
                    (version, (session, (er_slot, (step_count, (codec,
                    (dictionary_hash, (trace_root,
                    (transaction_effect_root, (readonly_l1_root,
                    (effect_commitment, pages)))))))))): ManifestFields = fields;
                let value = DaManifestV1 {
                    version,
                    session,
                    er_slot,
                    step_count,
                    codec,
                    dictionary_hash,
                    trace_root,
                    transaction_effect_root,
                    readonly_l1_root,
                    effect_commitment,
                    pages,
                };
                assert(value.pages.model() =~= value@.pages);
                Some((value, end))
            },
            None => None,
        }
    }
}

/// The fields of a package, in the order in which they are written.
pub type PackageFields = (DaManifestV1, Vec<DaStepPageV1>);

pub open spec fn package_fields(m: PackageModel) -> <PackageFields as Codec>::Model {
    (m.manifest, m.pages)
}

impl Codec for DaPackageV1 {
    type Model = PackageModel;

    open spec fn model(&self) -> PackageModel {
        self@
    }

    open spec fn encodable(m: PackageModel) -> bool {
        PackageFields::encodable(package_fields(m))
    }

    open spec fn wire(m: PackageModel) -> Seq<u8> {
        PackageFields::wire(package_fields(m))
    }

    proof fn prefix_free(a: PackageModel, b: PackageModel, bytes: Seq<u8>, pos: int) {
        PackageFields::prefix_free(package_fields(a), package_fields(b), bytes, pos);
        assert(a =~= b);
    }

    fn encode(&self, out: &mut Vec<u8>) -> (ok: bool) {
        assert(self.pages.model() =~= self@.pages);
        self.manifest.encode(out) && self.pages.encode(out)
    }

    fn decode(bytes: &[u8], pos: usize) -> (r: Option<(Self, usize)>) {
        match PackageFields::decode(bytes, pos) {
            Some(((manifest, pages), end)) => {
                let value = DaPackageV1 { manifest, pages };
                assert(value.pages.model() =~= value@.pages);
                Some((value, end))
            },
            None => None,
        }
    }
}

/// The fields of a commitment, in the order in which they are written.
pub type CommitmentFields =
    (u8, ([u8; 32], (u64, (u32, ([u8; 32], ([u8; 32], ([u8; 32], ([u8; 32], ([u8; 32], ([u8; 32],
    [u8; 32]))))))))));

pub open spec fn commitment_fields(
    m: CheckpointCommitmentV1,
) -> <CommitmentFields as Codec>::Model {
    (m.version, (m.session, (m.er_slot, (m.step_count, (m.previous_state_root,
    (m.new_state_root, (m.trace_root, (m.transaction_effect_root, (m.readonly_l1_root,
    (m.da_commitment, m.effect_commitment))))))))))
}

impl Codec for CheckpointCommitmentV1 {
    type Model = CheckpointCommitmentV1;

    open spec fn model(&self) -> CheckpointCommitmentV1 {
        *self
    }

    open spec fn encodable(m: CheckpointCommitmentV1) -> bool {
        CommitmentFields::encodable(commitment_fields(m))
    }

    open spec fn wire(m: CheckpointCommitmentV1) -> Seq<u8> {
        CommitmentFields::wire(commitment_fields(m))
    }

    proof fn prefix_free(
        a: CheckpointCommitmentV1,
        b: CheckpointCommitmentV1,
        bytes: Seq<u8>,
        pos: int,
    ) {
        CommitmentFields::prefix_free(commitment_fields(a), commitment_fields(b), bytes, pos);
    }

    fn encode(&self, out: &mut Vec<u8>) -> (ok: bool) {
        self.version.encode(out)
            && self.session.encode(out)
            && self.er_slot.encode(out)
            && self.step_count.encode(out)
            && self.previous_state_root.encode(out)
            && self.new_state_root.encode(out)
            && self.trace_root.encode(out)
            && self.transaction_effect_root.encode(out)
            && self.readonly_l1_root.encode(out)
            && self.da_commitment.encode(out)
            && self.effect_commitment.encode(out)
    }

    fn decode(bytes: &[u8], pos: usize) -> (r: Option<(Self, usize)>) {
        match CommitmentFields::decode(bytes, pos) {
            Some((fields, end)) => {
                let
                    (version, (session, (er_slot, (step_count,
                    (previous_state_root, (new_state_root, (trace_root,
                    (transaction_effect_root, (readonly_l1_root,
                    (da_commitment, effect_commitment)))))))))): CommitmentFields = fields;
                let value = CheckpointCommitmentV1 {
                    version,
                    session,
                    er_slot,
                    step_count,
                    previous_state_root,
                    new_state_root,
                    trace_root,
                    transaction_effect_root,
                    readonly_l1_root,
                    da_commitment,
                    effect_commitment,
                };
                Some((value, end))
            },
            None => None,
        }
    }
}

/// The fields of an artifact, in the order in which they are written.
pub type ArtifactFields = (CheckpointCommitmentV1, DaPackageV1);

pub open spec fn artifact_fields(m: ArtifactModel) -> <ArtifactFields as Codec>::Model {
    (m.checkpoint, m.da)
}

impl Codec for CheckpointArtifactV1 {
    type Model = ArtifactModel;

    open spec fn model(&self) -> ArtifactModel {
        self@
    }

    open spec fn encodable(m: ArtifactModel) -> bool {
        ArtifactFields::encodable(artifact_fields(m))
    }

    open spec fn wire(m: ArtifactModel) -> Seq<u8> {
        ArtifactFields::wire(artifact_fields(m))
    }

    proof fn prefix_free(a: ArtifactModel, b: ArtifactModel, bytes: Seq<u8>, pos: int) {
        ArtifactFields::prefix_free(artifact_fields(a), artifact_fields(b), bytes, pos);
        assert(a =~= b);
    }

    fn encode(&self, out: &mut Vec<u8>) -> (ok: bool) {
        self.checkpoint.encode(out) && self.da.encode(out)
    }

    fn decode(bytes: &[u8], pos: usize) -> (r: Option<(Self, usize)>) {
        match ArtifactFields::decode(bytes, pos) {
            Some(((checkpoint, da), end)) => {
                Some((CheckpointArtifactV1 { checkpoint, da }, end))
            },
            None => None,
        }
    }
}

} // verus!

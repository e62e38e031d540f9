//! Settlement plans as they are stored beside a checkpoint.

use vstd::prelude::*;

use crate::accounts::Pubkey;
use crate::codec::{
    encodes, encodings_are_unique, from_bytes, same_array, to_bytes, Codec,
};
use crate::settlement::chunks::{chunk_models, ChunkModel};
use crate::settlement::{
    plan_checksum, AccountLamportsSettlement, AccountOwnerSettlement, PlanModel,
    ReceiptBalanceSettlement, SettlementChunk, SettlementPlan, SettlementUnsupportedChange,
};

verus! {

/// A plan as it is stored. What a plan could not settle is not stored.
#[derive(Debug, Clone, PartialEq, Eq)]
pub struct DurableSettlementPlan {
    pub er_slot: u64,
    pub checksum: [u8; 32],
    pub chunks: Vec<SettlementChunk>,
    pub owner_changes: Vec<AccountOwnerSettlement>,
    pub lamport_changes: Vec<AccountLamportsSettlement>,
    pub receipt_balances: Vec<ReceiptBalanceSettlement>,
}

/// What a `DurableSettlementPlan` holds.
#[verifier::ext_equal]
pub struct DurableModel {
    pub er_slot: u64,
    pub checksum: [u8; 32],
    pub chunks: Seq<ChunkModel>,
    pub owner_changes: Seq<AccountOwnerSettlement>,
    pub lamport_changes: Seq<AccountLamportsSettlement>,
    pub receipt_balances: Seq<ReceiptBalanceSettlement>,
}

impl View for DurableSettlementPlan {
    type V = DurableModel;

    open spec fn view(&self) -> DurableModel {
        DurableModel {
            er_slot: self.er_slot,
            checksum: self.checksum,
            chunks: chunk_models(self.chunks@),
            owner_changes: self.owner_changes@,
            lamport_changes: self.lamport_changes@,
            receipt_balances: self.receipt_balances@,
        }
    }
}

/// The fields of a chunk, in the order in which they are written.
pub type ChunkFields = ([u8; 32], (u32, Vec<u8>));

pub open spec fn chunk_fields(m: ChunkModel) -> <ChunkFields as Codec>::Model {
    (m.account, (m.account_data_offset, m.data))
}

impl Codec for SettlementChunk {
    type Model = ChunkModel;

    open spec fn model(&self) -> ChunkModel {
        self@
    }

    open spec fn encodable(m: ChunkModel) -> bool {
        ChunkFields::encodable(chunk_fields(m))
    }

    open spec fn wire(m: ChunkModel) -> Seq<u8> {
        ChunkFields::wire(chunk_fields(m))
    }

    proof fn prefix_free(a: ChunkModel, b: ChunkModel, bytes: Seq<u8>, pos: int) {
        ChunkFields::prefix_free(chunk_fields(a), chunk_fields(b), bytes, pos);
        assert(a =~= b);
    }

    fn encode(&self, out: &mut Vec<u8>) -> (ok: bool) {
        assert(self.data.model() =~= self@.data);
        self.account.encode(out) && self.account_data_offset.encode(out) && self.data.encode(out)
    }

    fn decode(bytes: &[u8], pos: usize) -> (r: Option<(Self, usize)>) {
        match ChunkFields::decode(bytes, pos) {
            Some(((account, (account_data_offset, data)), end)) => {
                let value = SettlementChunk { account, account_data_offset, data };
                assert(value.data.model() =~= value@.data);
                Some((value, end))
            },
            None => None,
        }
    }
}

/// The fields of an owner change, in the order in which they are written.
pub type OwnerChangeFields = ([u8; 32], [u8; 32]);

pub open spec fn owner_change_fields(
    m: AccountOwnerSettlement,
) -> <OwnerChangeFields as Codec>::Model {
    (m.account, m.owner)
}

impl Codec for AccountOwnerSettlement {
    type Model = AccountOwnerSettlement;

    open spec fn model(&self) -> AccountOwnerSettlement {
        *self
    }

    open spec fn encodable(m: AccountOwnerSettlement) -> bool {
        OwnerChangeFields::encodable(owner_change_fields(m))
    }

    open spec fn wire(m: AccountOwnerSettlement) -> Seq<u8> {
        OwnerChangeFields::wire(owner_change_fields(m))
    }

    proof fn prefix_free(
        a: AccountOwnerSettlement,
        b: AccountOwnerSettlement,
        bytes: Seq<u8>,
        pos: int,
    ) {
        OwnerChangeFields::prefix_free(owner_change_fields(a), owner_change_fields(b), bytes, pos);
    }

    fn encode(&self, out: &mut Vec<u8>) -> (ok: bool) {
        self.account.encode(out) && self.owner.encode(out)
    }

    fn decode(bytes: &[u8], pos: usize) -> (r: Option<(Self, usize)>) {
        match OwnerChangeFields::decode(bytes, pos) {
            Some(((account, owner), end)) => {
                Some((AccountOwnerSettlement { account, owner }, end))
            },
            None => None,
        }
    }
}

/// The fields of a lamport change, in the order in which they are written.
pub type LamportChangeFields = ([u8; 32], u64);

pub open spec fn lamport_change_fields(
    m: AccountLamportsSettlement,
) -> <LamportChangeFields as Codec>::Model {
    (m.account, m.lamports)
}

impl Codec for AccountLamportsSettlement {
    type Model = AccountLamportsSettlement;

    open spec fn model(&self) -> AccountLamportsSettlement {
        *self
    }

    open spec fn encodable(m: AccountLamportsSettlement) -> bool {
        LamportChangeFields::encodable(lamport_change_fields(m))
    }

    open spec fn wire(m: AccountLamportsSettlement) -> Seq<u8> {
        LamportChangeFields::wire(lamport_change_fields(m))
    }

    proof fn prefix_free(
        a: AccountLamportsSettlement,
        b: AccountLamportsSettlement,
        bytes: Seq<u8>,
        pos: int,
    ) {
        LamportChangeFields::prefix_free(
            lamport_change_fields(a),
            lamport_change_fields(b),
            bytes,
            pos,
        );
    }

    fn encode(&self, out: &mut Vec<u8>) -> (ok: bool) {
        self.account.encode(out) && self.lamports.encode(out)
    }

    fn decode(bytes: &[u8], pos: usize) -> (r: Option<(Self, usize)>) {
        match LamportChangeFields::decode(bytes, pos) {
            Some(((account, lamports), end)) => {
                Some((AccountLamportsSettlement { account, lamports }, end))
            },
            None => None,
        }
    }
}

/// The fields of a receipt balance, in the order in which they are written.
pub type ReceiptFields = ([u8; 32], (u64, u64));

pub open spec fn receipt_fields(m: ReceiptBalanceSettlement) -> <ReceiptFields as Codec>::Model {
    (m.recipient, (m.balance, m.withdrawn))
}

impl Codec for ReceiptBalanceSettlement {
    type Model = ReceiptBalanceSettlement;

    open spec fn model(&self) -> ReceiptBalanceSettlement {
        *self
    }

    open spec fn encodable(m: ReceiptBalanceSettlement) -> bool {
        ReceiptFields::encodable(receipt_fields(m))
    }

    open spec fn wire(m: ReceiptBalanceSettlement) -> Seq<u8> {
        ReceiptFields::wire(receipt_fields(m))
    }

    proof fn prefix_free(
        a: ReceiptBalanceSettlement,
        b: ReceiptBalanceSettlement,
        bytes: Seq<u8>,
        pos: int,
    ) {
        ReceiptFields::prefix_free(receipt_fields(a), receipt_fields(b), bytes, pos);
    }

    fn encode(&self, out: &mut Vec<u8>) -> (ok: bool) {
        self.recipient.encode(out) && self.balance.encode(out) && self.withdrawn.encode(out)
    }

    fn decode(bytes: &[u8], pos: usize) -> (r: Option<(Self, usize)>) {
        match ReceiptFields::decode(bytes, pos) {
            Some(((recipient, (balance, withdrawn)), end)) => {
                Some((ReceiptBalanceSettlement { recipient, balance, withdrawn }, end))
            },
            None => None,
        }
    }
}

/// The fields of a stored plan, in the order in which they are written.
pub type PlanFields =
    (u64, ([u8; 32], (Vec<SettlementChunk>, (Vec<AccountOwnerSettlement>,
    (Vec<AccountLamportsSettlement>, Vec<ReceiptBalanceSettlement>)))));

pub open spec fn plan_fields(m: DurableModel) -> <PlanFields as Codec>::Model {
    (m.er_slot, (m.checksum, (m.chunks, (m.owner_changes, (m.lamport_changes,
    m.receipt_balances)))))
}

impl Codec for DurableSettlementPlan {
    type Model = DurableModel;

    open spec fn model(&self) -> DurableModel {
        self@
    }

    open spec fn encodable(m: DurableModel) -> bool {
        PlanFields::encodable(plan_fields(m))
    }

    open spec fn wire(m: DurableModel) -> Seq<u8> {
        PlanFields::wire(plan_fields(m))
    }

    proof fn prefix_free(a: DurableModel, b: DurableModel, bytes: Seq<u8>, pos: int) {
        PlanFields::prefix_free(plan_fields(a), plan_fields(b), bytes, pos);
        assert(a =~= b);
    }

    fn encode(&self, out: &mut Vec<u8>) -> (ok: bool) {
        assert(self.chunks.model() =~= self@.chunks);
        assert(self.owner_changes.model() =~= self@.owner_changes);
        assert(self.lamport_changes.model() =~= self@.lamport_changes);
        assert(self.receipt_balances.model() =~= self@.receipt_balances);
        self.er_slot.encode(out)
            && self.checksum.encode(out)
            && self.chunks.encode(out)
            && self.owner_changes.encode(out)
            && self.lamport_changes.encode(out)
            && self.receipt_balances.encode(out)
    }

    fn decode(bytes: &[u8], pos: usize) -> (r: Option<(Self, usize)>) {
        match PlanFields::decode(bytes, pos) {
            Some((fields, end)) => {
                let
                    (er_slot, (checksum, (chunks, (owner_changes,
                    (lamport_changes, receipt_balances))))): PlanFields = fields;
                let value = DurableSettlementPlan {
                    er_slot,
                    checksum,
                    chunks,
                    owner_changes,
                    lamport_changes,
                    receipt_balances,
                };
                assert(value.chunks.model() =~= value@.chunks);
                assert(value.owner_changes.model() =~= value@.owner_changes);
                assert(value.lamport_changes.model() =~= value@.lamport_changes);
                assert(value.receipt_balances.model() =~= value@.receipt_balances);
                Some((value, end))
            },
            None => None,
        }
    }
}

/// What is stored of a plan.
pub open spec fn stored(plan: PlanModel) -> DurableModel {
    DurableModel {
        er_slot: plan.er_slot,
        checksum: plan.checksum,
        chunks: plan.chunks,
        owner_changes: plan.owner_changes,
        lamport_changes: plan.lamport_changes,
        receipt_balances: plan.receipt_balances,
    }
}

/// The plan that was stored.
pub open spec fn restored(plan: DurableModel) -> PlanModel {
    PlanModel {
        er_slot: plan.er_slot,
        checksum: plan.checksum,
        chunks: plan.chunks,
        owner_changes: plan.owner_changes,
        lamport_changes: plan.lamport_changes,
        receipt_balances: plan.receipt_balances,
        unsupported_changes: Seq::empty(),
    }
}

impl DurableSettlementPlan {
    /// What is stored of a plan.
    pub fn of(plan: &SettlementPlan) -> (durable: DurableSettlementPlan)
        ensures
            durable@ == stored(plan@),
    {
        let plan = plan.copy();
        DurableSettlementPlan {
            er_slot: plan.er_slot,
            checksum: plan.checksum,
            chunks: plan.chunks,
            owner_changes: plan.owner_changes,
            lamport_changes: plan.lamport_changes,
            receipt_balances: plan.receipt_balances,
        }
    }

    /// The plan that was stored.
    pub fn restore(self) -> (plan: SettlementPlan)
        ensures
            plan@ == restored(self@),
    {
        let plan = SettlementPlan {
            er_slot: self.er_slot,
            checksum: self.checksum,
            chunks: self.chunks,
            owner_changes: self.owner_changes,
            lamport_changes: self.lamport_changes,
            receipt_balances: self.receipt_balances,
            unsupported_changes: Vec::new(),
        };
        assert(plan@ =~= restored(self@));
        plan
    }
}

/// The bytes to store for a plan, or `None` if a list in it is too long to be
/// stored.
pub fn checkpoint_plan_bytes(plan: &SettlementPlan) -> (r: Option<Vec<u8>>)
    ensures
        match r {
            Some(bytes) => encodes::<DurableSettlementPlan>(stored(plan@), bytes@),
            None => !DurableSettlementPlan::encodable(stored(plan@)),
        },
{
    to_bytes(&DurableSettlementPlan::of(plan))
}

/// `bytes` store the plan, and the plan is the one that the commitment is to.
pub open spec fn stores_plan(bytes: Seq<u8>, commitment: [u8; 32], plan: PlanModel) -> bool {
    &&& encodes::<DurableSettlementPlan>(stored(plan), bytes)
    &&& plan.unsupported_changes == Seq::<SettlementUnsupportedChange>::empty()
    &&& plan.checksum == plan_checksum(plan)
    &&& plan.checksum == commitment
}

/// The plan that is stored in `bytes` and that the commitment is to, if there is
/// one.
pub open spec fn stored_plan(bytes: Seq<u8>, commitment: [u8; 32]) -> Option<PlanModel> {
    if exists|plan: PlanModel| stores_plan(bytes, commitment, plan) {
        Some(choose|plan: PlanModel| stores_plan(bytes, commitment, plan))
    } else {
        None
    }
}

/// At most one plan is stored.
pub proof fn lemma_stored_plan(bytes: Seq<u8>, commitment: [u8; 32], plan: PlanModel)
    requires
        stores_plan(bytes, commitment, plan),
    ensures
        stored_plan(bytes, commitment) == Some(plan),
{
    let other = stored_plan(bytes, commitment)->0;
    assert(stores_plan(bytes, commitment, other));
    encodings_are_unique::<DurableSettlementPlan>(stored(other), stored(plan), bytes);
    assert(other =~= plan);
}

/// The plan that is stored in `bytes`, or `None` if they store no plan, if the
/// plan does not have the checksum that it carries, or if that checksum is not
/// the commitment.
pub fn load_checkpoint_plan(bytes: &[u8], commitment: &[u8; 32]) -> (r: Option<SettlementPlan>)
    ensures
        match r {
            Some(plan) => stored_plan(bytes@, *commitment) == Some(plan@) && stores_plan(
                bytes@,
                *commitment,
                plan@,
            ),
            None => stored_plan(bytes@, *commitment) is None,
        },
{
    let durable = match from_bytes::<DurableSettlementPlan>(bytes) {
        Some(durable) => durable,
        None => {
            return None;
        },
    };
    let plan = durable.restore();
    assert(stored(plan@) =~= durable.model());
    proof {
        assert forall|other: PlanModel| #[trigger] stores_plan(
            bytes@,
            *commitment,
            other,
        ) implies other == plan@ by {
            encodings_are_unique::<DurableSettlementPlan>(stored(other), stored(plan@), bytes@);
            assert(other =~= plan@);
        }
    }
    let recomputed = plan.recomputed_checksum();
    if !same_array(&recomputed, &plan.checksum) || !same_array(&recomputed, commitment) {
        return None;
    }
    proof {
        lemma_stored_plan(bytes@, *commitment, plan@);
    }
    Some(plan)
}

/// A stored plan is read back as it was, for a checkpoint that commits to it.
pub proof fn stored_plans_are_read_back(plan: PlanModel, bytes: Seq<u8>)
    requires
        encodes::<DurableSettlementPlan>(stored(plan), bytes),
        plan.unsupported_changes == Seq::<SettlementUnsupportedChange>::empty(),
        plan.checksum == plan_checksum(plan),
    ensures
        stored_plan(bytes, plan.checksum) == Some(plan),
{
    lemma_stored_plan(bytes, plan.checksum, plan);
}

/// A plan kept for a checkpoint of a session.
struct CachedPlan {
    session: Pubkey,
    er_slot: u64,
    plan: SettlementPlan,
}

/// The plans that are kept for checkpoints, one for each session and slot. They
/// are few, and vstd describes no std map with byte arrays in its keys.
pub struct PlanCache {
    entries: Vec<CachedPlan>,
}

spec fn entry_at(entries: Seq<CachedPlan>, i: int, key: (Pubkey, u64)) -> bool {
    0 <= i < entries.len() && entries[i].session == key.0 && entries[i].er_slot == key.1
}

spec fn entry_of(entries: Seq<CachedPlan>, key: (Pubkey, u64)) -> int {
    choose|i: int| entry_at(entries, i, key)
}

spec fn cached(entries: Seq<CachedPlan>) -> Map<(Pubkey, u64), PlanModel> {
    Map::new(
        |key: (Pubkey, u64)| exists|i: int| entry_at(entries, i, key),
        |key: (Pubkey, u64)| entries[entry_of(entries, key)].plan@,
    )
}

spec fn distinct(entries: Seq<CachedPlan>) -> bool {
    forall|i: int, j: int, key: (Pubkey, u64)|
        #[trigger] entry_at(entries, i, key) && #[trigger] entry_at(entries, j, key) ==> i == j
}

proof fn lemma_cached_at(entries: Seq<CachedPlan>, i: int, key: (Pubkey, u64))
    requires
        distinct(entries),
        entry_at(entries, i, key),
    ensures
        cached(entries).contains_key(key),
        cached(entries)[key] == entries[i].plan@,
{
    assert(entry_at(entries, entry_of(entries, key), key));
}

impl View for PlanCache {
    type V = Map<(Pubkey, u64), PlanModel>;

    closed spec fn view(&self) -> Map<(Pubkey, u64), PlanModel> {
        cached(self.entries@)
    }
}

impl PlanCache {
    pub closed spec fn well_formed(&self) -> bool {
        distinct(self.entries@)
    }

    /// A cache without plans.
    pub fn new() -> (cache: PlanCache)
        ensures
            cache.well_formed(),
            cache@ == Map::<(Pubkey, u64), PlanModel>::empty(),
    {
        let cache = PlanCache { entries: Vec::new() };
        assert(cache@ =~= Map::<(Pubkey, u64), PlanModel>::empty());
        cache
    }

    fn find(&self, session: &Pubkey, er_slot: u64) -> (r: Option<usize>)
        ensures
            match r {
                Some(i) => entry_at(self.entries@, i as int, (*session, er_slot)),
                None => forall|i: int| !#[trigger] entry_at(self.entries@, i, (*session, er_slot)),
            },
    {
        let mut i: usize = 0;
        while i < self.entries.len()
            invariant
                i <= self.entries@.len(),
                forall|j: int| j < i ==> !#[trigger] entry_at(self.entries@, j, (*session, er_slot)),
            decreases self.entries@.len() - i,
        {
            let entry = &self.entries[i];
            if entry.er_slot == er_slot && same_array(&entry.session, session) {
                return Some(i);
            }
            i += 1;
        }
        None
    }

    /// The plan kept for a session and slot.
    pub fn get(&self, session: &Pubkey, er_slot: u64) -> (r: Option<&SettlementPlan>)
        requires
            self.well_formed(),
        ensures
            match r {
                Some(plan) => self@.contains_key((*session, er_slot)) && self@[(*session, er_slot)]
                    == plan@,
                None => !self@.contains_key((*session, er_slot)),
            },
    {
        match self.find(session, er_slot) {
            Some(i) => {
                proof {
                    lemma_cached_at(self.entries@, i as int, (*session, er_slot));
                }
                Some(&self.entries[i].plan)
            },
            None => None,
        }
    }

    /// Keeps a plan for a session and slot.
    pub fn insert(&mut self, session: &Pubkey, er_slot: u64, plan: SettlementPlan)
        requires
            old(self).well_formed(),
        ensures
            final(self).well_formed(),
            final(self)@ == old(self)@.insert((*session, er_slot), plan@),
    {
        let ghost key = (*session, er_slot);
        let ghost before = self.entries@;
        let ghost model = plan@;
        let entry = CachedPlan { session: *session, er_slot, plan };
        match self.find(session, er_slot) {
            Some(i) => {
                self.entries.set(i, entry);
                proof {
                    let after = self.entries@;
                    assert forall|j: int, k: (Pubkey, u64)| #[trigger] entry_at(
                        after,
                        j,
                        k,
                    ) == entry_at(before, j, k) by {}
                    lemma_cached_at(after, i as int, key);
                    assert forall|k: (Pubkey, u64)| k != key && #[trigger] cached(before).contains_key(
                        k,
                    ) implies cached(after).contains_key(k) && cached(after)[k] == cached(
                        before,
                    )[k] by {
                        let j = entry_of(before, k);
                        assert(entry_at(before, j, k));
                        assert(entry_at(after, j, k));
                        lemma_cached_at(after, j, k);
                    }
                    assert forall|k: (Pubkey, u64)| cached(after).contains_key(
                        k,
                    ) implies cached(before).contains_key(k) by {
                        let j = entry_of(after, k);
                        assert(entry_at(after, j, k));
                        assert(entry_at(before, j, k));
                    }
                    assert(entry_at(before, i as int, key));
                    let wanted = cached(before).insert(key, model);
                    assert forall|k: (Pubkey, u64)| #[trigger] cached(after).contains_key(k)
                        == wanted.contains_key(k) by {
                        assert(wanted.contains_key(k) == (k == key || cached(before).contains_key(
                            k,
                        )));
                    }
                    assert(cached(after) =~= wanted);
                }
            },
            None => {
                self.entries.push(entry);
                proof {
                    let after = self.entries@;
                    let n = before.len() as int;
                    assert forall|j: int, k: (Pubkey, u64)| #[trigger] entry_at(
                        after,
                        j,
                        k,
                    ) == (entry_at(before, j, k) || (j == n && k == key)) by {}
                    assert(entry_at(after, n, key));
                    lemma_cached_at(after, n, key);
                    assert forall|k: (Pubkey, u64)| #[trigger] cached(before).contains_key(
                        k,
                    ) implies cached(after).contains_key(k) && cached(after)[k] == cached(
                        before,
                    )[k] by {
                        let j = entry_of(before, k);
                        assert(entry_at(before, j, k));
                        assert(entry_at(after, j, k));
                        lemma_cached_at(after, j, k);
                    }
                    assert forall|k: (Pubkey, u64)| cached(after).contains_key(k) && k
                        != key implies cached(before).contains_key(k) by {
                        let j = entry_of(after, k);
                        assert(entry_at(after, j, k));
                        assert(entry_at(before, j, k));
                    }
                    let wanted = cached(before).insert(key, model);
                    assert forall|k: (Pubkey, u64)| #[trigger] cached(after).contains_key(k)
                        == wanted.contains_key(k) by {
                        assert(wanted.contains_key(k) == (k == key || cached(before).contains_key(
                            k,
                        )));
                    }
                    assert(cached(after) =~= wanted);
                }
            },
        }
    }

    /// Drops the plan kept for a session and slot.
    pub fn remove(&mut self, session: &Pubkey, er_slot: u64)
        requires
            old(self).well_formed(),
        ensures
            final(self).well_formed(),
            final(self)@ == old(self)@.remove((*session, er_slot)),
    {
        let ghost key = (*session, er_slot);
        let ghost before = self.entries@;
        match self.find(session, er_slot) {
            Some(i) => {
                let _ = self.entries.remove(i);
                proof {
                    let after = self.entries@;
                    let moved = |j: int| if j < i { j } else { j + 1 };
                    assert forall|j: int, k: (Pubkey, u64)| #[trigger] entry_at(
                        after,
                        j,
                        k,
                    ) implies entry_at(before, moved(j), k) && after[j] == before[moved(j)] by {}
                    assert forall|k: (Pubkey, u64)| cached(after).contains_key(
                        k,
                    ) implies cached(before).contains_key(k) && k != key && cached(after)[k]
                        == cached(before)[k] by {
                        let j = entry_of(after, k);
                        assert(entry_at(after, j, k));
                        assert(entry_at(before, moved(j), k));
                        lemma_cached_at(before, moved(j), k);
                        if k == key {
                            assert(entry_at(before, i as int, k));
                        }
                    }
                    assert forall|k: (Pubkey, u64)| k != key && cached(before).contains_key(
                        k,
                    ) implies cached(after).contains_key(k) by {
                        let j = entry_of(before, k);
                        assert(entry_at(before, j, k));
                        assert(entry_at(before, i as int, key));
                        if j < i {
                            assert(entry_at(after, j, k));
                        } else {
                            assert(entry_at(after, j - 1, k));
                        }
                    }
                    assert(self@ =~= old(self)@.remove(key));
                }
            },
            None => {
                assert(self@ =~= old(self)@.remove(key));
            },
        }
    }
}

/// An address in base 58.
pub uninterp spec fn address_text(address: [u8; 32]) -> Seq<char>;

/// Calls `solana_pubkey::Pubkey`'s `to_string`. Claims only that the text depends
/// on nothing but the address.
#[verifier::external_body]
fn text_of_address(address: &Pubkey) -> (text: String)
    ensures
        text@ == address_text(*address),
{
    solana_pubkey::Pubkey::new_from_array(*address).to_string()
}

/// A digit.
pub open spec fn digit(n: nat) -> char {
    (48 + n) as char
}

/// A number in decimal digits.
pub open spec fn decimal_text(n: nat) -> Seq<char>
    decreases n,
{
    if n < 10 {
        seq![digit(n)]
    } else {
        decimal_text(n / 10).push(digit(n % 10))
    }
}

/// Calls `format!` on a number. Claims that it gives the decimal digits without
/// leading zeros.
#[verifier::external_body]
fn text_of_number(n: u64) -> (text: String)
    ensures
        text@ == decimal_text(n as nat),
{
    format!("{n}")
}

/// The name of the file that the plan of a checkpoint is stored in.
pub open spec fn plan_file_name(
    portal: Pubkey,
    session: Pubkey,
    proposer: Pubkey,
    er_slot: u64,
) -> Seq<char> {
    address_text(portal) + "-"@ + address_text(session) + "-"@ + address_text(proposer) + "-"@
        + decimal_text(er_slot as nat) + ".borsh"@
}

/// The name of the file that the plan of a checkpoint is stored in.
pub fn checkpoint_plan_file_name(
    portal: &Pubkey,
    session: &Pubkey,
    proposer: &Pubkey,
    er_slot: u64,
) -> (name: String)
    ensures
        name@ == plan_file_name(*portal, *session, *proposer, er_slot),
{
    let mut name = text_of_address(portal);
    name.append("-");
    let session = text_of_address(session);
    name.append(session.as_str());
    name.append("-");
    let proposer = text_of_address(proposer);
    name.append(proposer.as_str());
    name.append("-");
    let slot = text_of_number(er_slot);
    name.append(slot.as_str());
    name.append(".borsh");
    name
}

} // verus!

//! Packing settlement instructions into transactions.

use vstd::prelude::*;

use crate::accounts::Pubkey;
use crate::instructions::{instruction_models, AccountMeta, Instruction, InstructionModel};
use crate::keyed::KeySet;
use crate::settlement::plan::can_be_sent;
use crate::settlement::portal::{
    protocol_ok, submission, PortalProtocol, SettlementTarget,
};
use crate::settlement::{PlanModel, SettlementPlan};

verus! {

/// How many bytes one transaction can have.
pub const PACKET_DATA_SIZE: u64 = 1_232;

/// How many addresses a message can list.
pub const MAX_MESSAGE_KEYS: usize = 255;

/// The addresses that the accounts of an instruction have.
pub open spec fn meta_keys(accounts: Seq<AccountMeta>) -> Set<Pubkey> {
    accounts.map_values(|meta: AccountMeta| meta.pubkey).to_set()
}

/// The addresses that a message of the instructions lists.
pub open spec fn message_keys(instructions: Seq<InstructionModel>, payer: Pubkey) -> Set<Pubkey>
    decreases instructions.len(),
{
    if instructions.len() == 0 {
        Set::empty().insert(payer)
    } else {
        message_keys(instructions.drop_last(), payer).insert(
            instructions.last().program_id,
        ).union(meta_keys(instructions.last().accounts))
    }
}

proof fn lemma_message_keys(
    instructions: Seq<InstructionModel>,
    instruction: InstructionModel,
    payer: Pubkey,
)
    ensures
        message_keys(instructions, payer).finite(),
        message_keys(instructions.push(instruction), payer).finite(),
        message_keys(instructions.push(instruction), payer).len() <= message_keys(
            instructions,
            payer,
        ).len() + message_keys(seq![instruction], payer).len(),
        message_keys(seq![instruction], payer).len() >= 1,
    decreases instructions.len(),
{
    if instructions.len() > 0 {
        lemma_message_keys(instructions.drop_last(), instructions.last(), payer);
        assert(instructions.drop_last().push(instructions.last()) =~= instructions);
    }
    let before = message_keys(instructions, payer);
    let alone = message_keys(seq![instruction], payer);
    let both = message_keys(instructions.push(instruction), payer);
    vstd::seq_lib::seq_to_set_is_finite(
        instruction.accounts.map_values(|meta: AccountMeta| meta.pubkey),
    );
    assert(instructions.push(instruction).drop_last() =~= instructions);
    let first = message_keys(Seq::<InstructionModel>::empty(), payer);
    assert(first =~= Set::empty().insert(payer));
    assert(seq![instruction].drop_last() =~= Seq::<InstructionModel>::empty());
    assert(alone == first.insert(instruction.program_id).union(meta_keys(instruction.accounts)));
    vstd::set_lib::lemma_len_subset(first, alone);
    vstd::set_lib::lemma_len_union(before, alone);
    assert(both.subset_of(before.union(alone)));
    vstd::set_lib::lemma_len_subset(both, before.union(alone));
}

/// How many bytes of data the instructions have.
pub open spec fn data_len(instructions: Seq<InstructionModel>) -> nat
    decreases instructions.len(),
{
    if instructions.len() == 0 {
        0
    } else {
        data_len(instructions.drop_last()) + instructions.last().data.len()
    }
}

/// Whether a message of this instruction alone can list its addresses.
fn lists_few_keys(instruction: &Instruction, payer: &Pubkey) -> (few: bool)
    ensures
        few == (message_keys(seq![instruction@], *payer).len() <= MAX_MESSAGE_KEYS),
{
    let ghost model = instruction@;
    let ghost listed = model.accounts.map_values(|meta: AccountMeta| meta.pubkey);
    let ghost all = message_keys(seq![model], *payer);
    let mut keys: KeySet<32> = KeySet::new();
    let _ = keys.insert(*payer);
    let _ = keys.insert(instruction.program_id);
    let ghost base = keys@;
    proof {
        lemma_message_keys(Seq::empty(), model, *payer);
        assert(Seq::<InstructionModel>::empty().push(model) =~= seq![model]);
        assert(seq![model].drop_last() =~= Seq::<InstructionModel>::empty());
        assert(all == base.union(listed.to_set()));
        assert(keys@ =~= base.union(listed.take(0).to_set()));
    }
    let mut i: usize = 0;
    while i < instruction.accounts.len()
        invariant
            i <= instruction.accounts@.len(),
            keys.well_formed(),
            model == instruction@,
            listed == model.accounts.map_values(|meta: AccountMeta| meta.pubkey),
            all == message_keys(seq![model], *payer),
            all.finite(),
            all == base.union(listed.to_set()),
            keys@ == base.union(listed.take(i as int).to_set()),
        decreases instruction.accounts@.len() - i,
    {
        let _ = keys.insert(instruction.accounts[i].pubkey);
        proof {
            let before = listed.take(i as int);
            let now = listed.take(i + 1);
            assert(now =~= before.push(listed[i as int]));
            assert forall|k: Pubkey| #[trigger]
                now.to_set().contains(k) <==> before.to_set().contains(k) || k
                == listed[i as int] by {
                if before.to_set().contains(k) {
                    let j = choose|j: int| 0 <= j < before.len() && before[j] == k;
                    assert(now[j] == k);
                }
                if k == listed[i as int] {
                    assert(now[i as int] == k);
                }
            }
            assert(keys@ =~= base.union(now.to_set()));
            assert forall|k: Pubkey| keys@.contains(k) implies all.contains(k) by {
                if now.to_set().contains(k) {
                    let j = choose|j: int| 0 <= j < now.len() && now[j] == k;
                    assert(listed[j] == k);
                }
            }
            keys.lemma_listed();
            vstd::set_lib::lemma_len_subset(keys@, all);
        }
        if keys.len() > MAX_MESSAGE_KEYS {
            return false;
        }
        i += 1;
    }
    proof {
        assert(listed.take(i as int) =~= listed);
        keys.lemma_listed();
    }
    keys.len() <= MAX_MESSAGE_KEYS
}

/// The length of the serialized transaction of the instructions, or `None` if
/// it cannot be serialized.
pub uninterp spec fn serialized_transaction_size(
    instructions: Seq<InstructionModel>,
    payer: [u8; 32],
) -> Option<u64>;

/// Calls `solana_transaction::Transaction::new_with_payer` and
/// `bincode::serialized_size`. Claims that the size depends on nothing but the
/// instructions and the payer, and that it covers 32 bytes for each address that
/// the message lists and the data of the instructions. Compiling a message panics
/// if more than 255 addresses sign, or more than 255 are read only.
#[verifier::external_body]
fn transaction_size(instructions: &Vec<Instruction>, payer: &Pubkey) -> (r: Option<u64>)
    requires
        message_keys(instruction_models(instructions@), *payer).len() <= MAX_MESSAGE_KEYS,
    ensures
        r == serialized_transaction_size(instruction_models(instructions@), *payer),
        r matches Some(n) ==> 32 * message_keys(instruction_models(instructions@), *payer).len()
            + data_len(instruction_models(instructions@)) <= n,
{
    let list: Vec<solana_instruction::Instruction> = instructions.iter().map(
        |i| solana_instruction::Instruction {
            program_id: i.program_id.into(),
            accounts: i.accounts.iter().map(|m| solana_instruction::AccountMeta {
                pubkey: m.pubkey.into(), is_signer: m.is_signer, is_writable: m.is_writable,
            }).collect(),
            data: i.data.clone(),
        }).collect();
    let payer = solana_pubkey::Pubkey::new_from_array(*payer);
    let transaction = solana_transaction::Transaction::new_with_payer(&list, Some(&payer));
    bincode::serialized_size(&transaction).ok()
}

/// One transaction can carry the instructions: a message can list their
/// addresses, and the transaction fits a packet.
pub open spec fn fits_packet(instructions: Seq<InstructionModel>, payer: Pubkey) -> bool {
    &&& message_keys(instructions, payer).len() <= MAX_MESSAGE_KEYS
    &&& serialized_transaction_size(instructions, payer) matches Some(n) && n <= PACKET_DATA_SIZE
}

fn settlement_transaction_fits(instructions: &Vec<Instruction>, payer: &Pubkey) -> (fits: bool)
    requires
        message_keys(instruction_models(instructions@), *payer).len() <= MAX_MESSAGE_KEYS,
    ensures
        fits == fits_packet(instruction_models(instructions@), *payer),
        fits ==> 32 * message_keys(instruction_models(instructions@), *payer).len() + data_len(
            instruction_models(instructions@),
        ) <= PACKET_DATA_SIZE,
{
    match transaction_size(instructions, payer) {
        Some(size) => size <= PACKET_DATA_SIZE,
        None => false,
    }
}

/// Every instruction fits alone.
pub open spec fn all_fit_alone(instructions: Seq<InstructionModel>, payer: Pubkey) -> bool {
    forall|i: int|
        0 <= i < instructions.len() ==> fits_packet(seq![#[trigger] instructions[i]], payer)
}

/// Batches filled greedily: an instruction goes into the batch at hand if that
/// still fits one transaction, and starts the next batch otherwise.
pub open spec fn greedy_batches(
    batches: Seq<Seq<InstructionModel>>,
    current: Seq<InstructionModel>,
    rest: Seq<InstructionModel>,
    payer: Pubkey,
) -> Seq<Seq<InstructionModel>>
    decreases rest.len(),
{
    let closed = if current.len() > 0 {
        batches.push(current)
    } else {
        batches
    };
    if rest.len() == 0 {
        closed
    } else if fits_packet(current.push(rest[0]), payer) {
        greedy_batches(batches, current.push(rest[0]), rest.drop_first(), payer)
    } else {
        greedy_batches(closed, seq![rest[0]], rest.drop_first(), payer)
    }
}

/// The batches of the instructions: none if some instruction does not even fit
/// alone.
pub open spec fn batches_of(instructions: Seq<InstructionModel>, payer: Pubkey) -> Seq<
    Seq<InstructionModel>,
> {
    if all_fit_alone(instructions, payer) {
        greedy_batches(Seq::empty(), Seq::empty(), instructions, payer)
    } else {
        Seq::empty()
    }
}

/// What the batches hold.
pub open spec fn batch_models(batches: Seq<Vec<Instruction>>) -> Seq<Seq<InstructionModel>> {
    batches.map_values(|batch: Vec<Instruction>| instruction_models(batch@))
}

/// Packs the instructions into as few transactions as keeping their order allows.
/// Returns no batch if some instruction does not even fit alone; one with a
/// packet's worth of data does not.
pub fn split_settlement_instruction_batches(
    instructions: &Vec<Instruction>,
    payer: &Pubkey,
) -> (batches: Vec<Vec<Instruction>>)
    ensures
        batch_models(batches@) == batches_of(instruction_models(instructions@), *payer),
        (exists|i: int|
            0 <= i < instructions@.len() && (#[trigger] instructions@[i])@.data.len()
                >= PACKET_DATA_SIZE) ==> batches@.len() == 0,
{
    let ghost ms = instruction_models(instructions@);
    let ghost whole = greedy_batches(Seq::empty(), Seq::empty(), ms, *payer);
    let mut batches: Vec<Vec<Instruction>> = Vec::new();
    let mut current: Vec<Instruction> = Vec::new();
    let mut i: usize = 0;
    proof {
        assert(batch_models(batches@) =~= Seq::<Seq<InstructionModel>>::empty());
        assert(instruction_models(current@) =~= Seq::<InstructionModel>::empty());
        assert(ms.skip(0) =~= ms);
        assert(message_keys(Seq::<InstructionModel>::empty(), *payer) =~= Set::empty().insert(
            *payer,
        ));
    }
    while i < instructions.len()
        invariant
            i <= instructions@.len(),
            ms == instruction_models(instructions@),
            forall|j: int| 0 <= j < i ==> fits_packet(seq![#[trigger] ms[j]], *payer),
            forall|j: int|
                0 <= j < i ==> (#[trigger] instructions@[j])@.data.len() < PACKET_DATA_SIZE,
            message_keys(instruction_models(current@), *payer).len() <= 38,
            greedy_batches(
                batch_models(batches@),
                instruction_models(current@),
                ms.skip(i as int),
                *payer,
            ) == whole,
        decreases instructions@.len() - i,
    {
        let instruction = &instructions[i];
        let ghost model = ms[i as int];
        let ghost filled = instruction_models(current@);
        let ghost rest = ms.skip(i as int);
        proof {
            assert(model == instruction@);
            assert(rest[0] == model);
            assert(rest.drop_first() =~= ms.skip(i + 1));
            lemma_message_keys(filled, model, *payer);
            assert(seq![model].drop_last() =~= Seq::<InstructionModel>::empty());
            assert(data_len(seq![model]) == data_len(Seq::empty()) + model.data.len());
        }
        let mut single: Vec<Instruction> = Vec::new();
        single.push(instruction.copy());
        assert(instruction_models(single@) =~= seq![model]);
        if !lists_few_keys(instruction, payer) || !settlement_transaction_fits(&single, payer) {
            let none: Vec<Vec<Instruction>> = Vec::new();
            assert(!fits_packet(seq![ms[i as int]], *payer));
            assert(batch_models(none@) =~= Seq::<Seq<InstructionModel>>::empty());
            return none;
        }
        current.push(instruction.copy());
        assert(instruction_models(current@) =~= filled.push(model));
        if !settlement_transaction_fits(&current, payer) {
            let _ = current.pop();
            assert(instruction_models(current@) =~= filled);
            let ghost before = batch_models(batches@);
            if current.len() > 0 {
                batches.push(current);
                assert(batch_models(batches@) =~= before.push(filled));
            }
            current = single;
        }
        i += 1;
    }
    let ghost before = batch_models(batches@);
    let ghost filled = instruction_models(current@);
    if current.len() > 0 {
        batches.push(current);
        assert(batch_models(batches@) =~= before.push(filled));
    }
    assert(ms.skip(i as int).len() == 0);
    batches
}

/// The instructions of the batches, one after another.
pub open spec fn joined(batches: Seq<Seq<InstructionModel>>) -> Seq<InstructionModel>
    decreases batches.len(),
{
    if batches.len() == 0 {
        Seq::empty()
    } else {
        joined(batches.drop_last()) + batches.last()
    }
}

proof fn lemma_greedy(
    batches: Seq<Seq<InstructionModel>>,
    current: Seq<InstructionModel>,
    rest: Seq<InstructionModel>,
    payer: Pubkey,
)
    requires
        all_fit_alone(rest, payer),
        current.len() > 0 ==> fits_packet(current, payer),
        forall|b: int|
            0 <= b < batches.len() ==> (#[trigger] batches[b]).len() > 0 && fits_packet(
                batches[b],
                payer,
            ),
    ensures
        joined(greedy_batches(batches, current, rest, payer)) == joined(batches) + current + rest,
        forall|b: int|
            0 <= b < greedy_batches(batches, current, rest, payer).len() ==> (
            #[trigger] greedy_batches(batches, current, rest, payer)[b]).len() > 0 && fits_packet(
                greedy_batches(batches, current, rest, payer)[b],
                payer,
            ),
    decreases rest.len(),
{
    let closed = if current.len() > 0 {
        batches.push(current)
    } else {
        batches
    };
    assert(joined(closed) =~= joined(batches) + current) by {
        if current.len() > 0 {
            assert(closed.drop_last() =~= batches);
        }
    }
    if rest.len() == 0 {
        assert(joined(batches) + current + rest =~= joined(batches) + current);
    } else {
        let tail = rest.drop_first();
        assert forall|i: int| 0 <= i < tail.len() implies fits_packet(
            seq![#[trigger] tail[i]],
            payer,
        ) by {
            assert(tail[i] == rest[i + 1]);
        }
        assert(fits_packet(seq![rest[0]], payer));
        if fits_packet(current.push(rest[0]), payer) {
            lemma_greedy(batches, current.push(rest[0]), tail, payer);
            assert(joined(batches) + current.push(rest[0]) + tail =~= joined(batches) + current
                + rest);
        } else {
            lemma_greedy(closed, seq![rest[0]], tail, payer);
            assert(joined(closed) + seq![rest[0]] + tail =~= joined(batches) + current + rest);
        }
    }
}

/// Batching keeps every instruction and their order, and every batch fits one
/// transaction.
pub proof fn batches_keep_the_instructions(instructions: Seq<InstructionModel>, payer: Pubkey)
    requires
        all_fit_alone(instructions, payer),
    ensures
        joined(batches_of(instructions, payer)) == instructions,
        forall|b: int|
            0 <= b < batches_of(instructions, payer).len() ==> (#[trigger] batches_of(
                instructions,
                payer,
            )[b]).len() > 0 && fits_packet(batches_of(instructions, payer)[b], payer),
{
    lemma_greedy(Seq::empty(), Seq::empty(), instructions, payer);
    assert(joined(Seq::<Seq<InstructionModel>>::empty()) + Seq::<InstructionModel>::empty()
        + instructions =~= instructions);
}

/// No batch but the last has room for the next instruction.
pub open spec fn all_full(batches: Seq<Seq<InstructionModel>>, payer: Pubkey) -> bool {
    forall|b: int|
        0 <= b < batches.len() - 1 ==> !fits_packet(
            (#[trigger] batches[b]).push(batches[b + 1][0]),
            payer,
        )
}

proof fn lemma_greedy_full(
    batches: Seq<Seq<InstructionModel>>,
    current: Seq<InstructionModel>,
    rest: Seq<InstructionModel>,
    payer: Pubkey,
)
    requires
        all_full(batches, payer),
        batches.len() > 0 ==> current.len() > 0 && !fits_packet(
            batches.last().push(current[0]),
            payer,
        ),
    ensures
        all_full(greedy_batches(batches, current, rest, payer), payer),
    decreases rest.len(),
{
    let closed = if current.len() > 0 {
        batches.push(current)
    } else {
        batches
    };
    assert forall|b: int| 0 <= b < closed.len() - 1 implies !fits_packet(
        (#[trigger] closed[b]).push(closed[b + 1][0]),
        payer,
    ) by {
        if b < batches.len() - 1 {
            assert(closed[b] == batches[b] && closed[b + 1] == batches[b + 1]);
        }
    }
    if rest.len() > 0 {
        let tail = rest.drop_first();
        if fits_packet(current.push(rest[0]), payer) {
            if current.len() > 0 {
                assert(current.push(rest[0])[0] == current[0]);
            }
            lemma_greedy_full(batches, current.push(rest[0]), tail, payer);
        } else {
            lemma_greedy_full(closed, seq![rest[0]], tail, payer);
        }
    }
}

/// Batching is greedy: no batch but the last has room for the instruction that
/// follows it.
pub proof fn batches_are_full(instructions: Seq<InstructionModel>, payer: Pubkey)
    ensures
        all_full(batches_of(instructions, payer), payer),
{
    lemma_greedy_full(Seq::empty(), Seq::empty(), instructions, payer);
}

/// The address of the keypair with this secret key.
pub uninterp spec fn keypair_address(secret: [u8; 32]) -> [u8; 32];

/// Calls `solana_keypair::Keypair::new_from_array` and its `pubkey`. Claims
/// only that the address depends on nothing but the secret key.
#[verifier::external_body]
pub(crate) fn address_of_keypair(secret: &[u8; 32]) -> (address: Pubkey)
    ensures
        address == keypair_address(*secret),
{
    let keypair = solana_keypair::Keypair::new_from_array(*secret);
    solana_signer::Signer::pubkey(&keypair).to_bytes()
}

/// The serialized transaction of the instructions, paid for and signed by the
/// keypair with this secret key, or `None` if another signature is needed or it
/// cannot be serialized.
pub uninterp spec fn signed_transaction(
    instructions: Seq<InstructionModel>,
    secret: [u8; 32],
    recent_blockhash: [u8; 32],
) -> Option<Seq<u8>>;

/// Calls `solana_transaction::Transaction::new_with_payer`, its `try_sign` and
/// `bincode::serialize`. Claims that the bytes depend on nothing but the
/// instructions, the secret key and the blockhash, and that signatures do not
/// change the size. Compiling a message panics if more than 255 addresses sign, or
/// more than 255 are read only, and signing one that cannot be serialized panics.
#[verifier::external_body]
fn sign_settlement_transaction(
    instructions: &Vec<Instruction>,
    secret: &[u8; 32],
    recent_blockhash: &[u8; 32],
) -> (r: Option<Vec<u8>>)
    requires
        message_keys(instruction_models(instructions@), keypair_address(*secret)).len()
            <= MAX_MESSAGE_KEYS,
        serialized_transaction_size(
            instruction_models(instructions@),
            keypair_address(*secret),
        ) is Some,
    ensures
        match r {
            Some(bytes) => {
                &&& signed_transaction(
                    instruction_models(instructions@),
                    *secret,
                    *recent_blockhash,
                ) == Some(bytes@)
                &&& serialized_transaction_size(
                    instruction_models(instructions@),
                    keypair_address(*secret),
                ) == Some(bytes@.len() as u64)
            },
            None => signed_transaction(
                instruction_models(instructions@),
                *secret,
                *recent_blockhash,
            ) is None,
        },
{
    let list: Vec<solana_instruction::Instruction> = instructions.iter().map(
        |i| solana_instruction::Instruction {
            program_id: i.program_id.into(),
            accounts: i.accounts.iter().map(|m| solana_instruction::AccountMeta {
                pubkey: m.pubkey.into(), is_signer: m.is_signer, is_writable: m.is_writable,
            }).collect(),
            data: i.data.clone(),
        }).collect();
    let key = solana_keypair::Keypair::new_from_array(*secret);
    let payer = solana_signer::Signer::pubkey(&key);
    let mut tx = solana_transaction::Transaction::new_with_payer(&list, Some(&payer));
    tx.try_sign(&[&key], solana_hash::Hash::new_from_array(*recent_blockhash)).ok()?;
    bincode::serialize(&tx).ok()
}

/// The serialized transaction, signed anew with this secret key for another
/// blockhash, or `None` if the bytes are no transaction or it cannot be signed.
pub uninterp spec fn resigned_transaction(
    bytes: Seq<u8>,
    secret: [u8; 32],
    recent_blockhash: [u8; 32],
) -> Option<Seq<u8>>;

/// `again` is what signing gives, for the new blockhash, of every list of
/// instructions that `bytes` are the signed transaction of. Lists that call the
/// payer as a program are left out.
pub open spec fn signs_the_same(
    bytes: Seq<u8>,
    secret: [u8; 32],
    recent_blockhash: [u8; 32],
    again: Option<Seq<u8>>,
) -> bool {
    forall|instructions: Seq<InstructionModel>, before: [u8; 32]|
        #[trigger] signed_transaction(instructions, secret, before) == Some(bytes) && (forall|
            i: int,
        |
            0 <= i < instructions.len() ==> (#[trigger] instructions[i]).program_id
                != keypair_address(secret)) ==> again is Some && again == signed_transaction(
            instructions,
            secret,
            recent_blockhash,
        )
}

/// What optional bytes hold.
pub open spec fn optional_view(bytes: Option<Vec<u8>>) -> Option<Seq<u8>> {
    match bytes {
        Some(bytes) => Some(bytes@),
        None => None,
    }
}

/// Calls `bincode::deserialize` for
/// `solana_transaction::versioned::VersionedTransaction`, its `sanitize` and
/// `into_legacy_transaction`, `solana_transaction::Transaction::try_sign` and
/// `bincode::serialize`. Claims that the bytes depend on nothing but the bytes
/// before, the secret key and the blockhash, and that a transaction that this key
/// has signed becomes what signing its instructions for the new blockhash gives.
#[verifier::external_body]
fn sign_again(bytes: &[u8], secret: &[u8; 32], recent_blockhash: &[u8; 32]) -> (r: Option<Vec<u8>>)
    ensures
        optional_view(r) == resigned_transaction(bytes@, *secret, *recent_blockhash),
        signs_the_same(bytes@, *secret, *recent_blockhash, optional_view(r)),
{
    let transaction: solana_transaction::versioned::VersionedTransaction = bincode::deserialize(
        bytes,
    ).ok()?;
    transaction.sanitize().ok()?;
    let mut transaction = transaction.into_legacy_transaction()?;
    let key = solana_keypair::Keypair::new_from_array(*secret);
    let blockhash = solana_hash::Hash::new_from_array(*recent_blockhash);
    transaction.try_sign(&[&key], blockhash).ok()?;
    bincode::serialize(&transaction).ok()
}

/// Signs a settlement transaction anew for a fresh blockhash. Returns `None` if
/// the bytes are no transaction or the key cannot sign it. What this key has
/// signed before becomes what signing its instructions for the new blockhash
/// gives.
pub fn resign_settlement_transaction(
    bytes: &Vec<u8>,
    validator_secret: &[u8; 32],
    recent_blockhash: &[u8; 32],
) -> (r: Option<Vec<u8>>)
    ensures
        optional_view(r) == resigned_transaction(bytes@, *validator_secret, *recent_blockhash),
        signs_the_same(bytes@, *validator_secret, *recent_blockhash, optional_view(r)),
{
    sign_again(bytes, validator_secret, recent_blockhash)
}

/// The transactions of the batches, if every one of them can be signed.
pub open spec fn transactions_of(
    batches: Seq<Seq<InstructionModel>>,
    secret: [u8; 32],
    recent_blockhash: [u8; 32],
) -> Option<Seq<Seq<u8>>> {
    if forall|b: int|
        0 <= b < batches.len() ==> signed_transaction(
            #[trigger] batches[b],
            secret,
            recent_blockhash,
        ) is Some {
        Some(
            batches.map_values(
                |batch: Seq<InstructionModel>|
                    signed_transaction(batch, secret, recent_blockhash)->0,
            ),
        )
    } else {
        None
    }
}

/// What the transactions hold.
pub open spec fn transaction_bytes(transactions: Seq<Vec<u8>>) -> Seq<Seq<u8>> {
    transactions.map_values(|transaction: Vec<u8>| transaction@)
}

/// No transaction is longer than a packet.
pub open spec fn all_fit_packets(transactions: Seq<Seq<u8>>) -> bool {
    forall|t: int|
        0 <= t < transactions.len() ==> (#[trigger] transactions[t]).len() <= PACKET_DATA_SIZE
}

/// The batches of a submission.
pub open spec fn submission_batches(
    plan: PlanModel,
    protocol: PortalProtocol,
    target: SettlementTarget,
    include_begin: bool,
) -> Option<Seq<Seq<InstructionModel>>> {
    match submission(plan, protocol, target, include_begin) {
        Some(instructions) => Some(batches_of(instructions, target.validator)),
        None => None,
    }
}

/// The signed transactions of a submission.
pub open spec fn submission_transactions(
    plan: PlanModel,
    protocol: PortalProtocol,
    program_id: Pubkey,
    session: Pubkey,
    secret: [u8; 32],
    recent_blockhash: [u8; 32],
    include_begin: bool,
) -> Option<Seq<Seq<u8>>> {
    let target = SettlementTarget { program_id, session, validator: keypair_address(secret) };
    match submission_batches(plan, protocol, target, include_begin) {
        Some(batches) => transactions_of(batches, secret, recent_blockhash),
        None => None,
    }
}

impl SettlementPlan {
    /// The instructions of the plan, packed into transactions.
    pub fn portal_instruction_batches(
        &self,
        protocol: &PortalProtocol,
        target: &SettlementTarget,
        include_begin: bool,
    ) -> (r: Option<Vec<Vec<Instruction>>>)
        requires
            protocol_ok(*protocol),
            can_be_sent(self@, protocol.limits),
        ensures
            match submission_batches(self@, *protocol, *target, include_begin) {
                Some(models) => r matches Some(batches) && batch_models(batches@) == models,
                None => r is None,
            },
    {
        match self.portal_instructions_inner(protocol, target, include_begin) {
            Some(instructions) => Some(
                split_settlement_instruction_batches(&instructions, &target.validator),
            ),
            None => None,
        }
    }

    /// The transactions that settle the plan from its beginning, each fit for
    /// one packet. Returns `None` if an address cannot be derived or a
    /// transaction cannot be signed.
    pub fn portal_transactions(
        &self,
        protocol: &PortalProtocol,
        portal_program_id: Pubkey,
        session_pda: Pubkey,
        validator_secret: &[u8; 32],
        recent_blockhash: &[u8; 32],
    ) -> (r: Option<Vec<Vec<u8>>>)
        requires
            protocol_ok(*protocol),
            can_be_sent(self@, protocol.limits),
        ensures
            match submission_transactions(
                self@,
                *protocol,
                portal_program_id,
                session_pda,
                *validator_secret,
                *recent_blockhash,
                true,
            ) {
                Some(bytes) => r matches Some(transactions) && transaction_bytes(transactions@)
                    == bytes && all_fit_packets(bytes),
                None => r is None,
            },
    {
        self.portal_transactions_inner(
            protocol,
            portal_program_id,
            session_pda,
            validator_secret,
            recent_blockhash,
            true,
        )
    }

    /// The transactions that go on with a settlement that has begun already.
    pub fn portal_retry_transactions_after_begin(
        &self,
        protocol: &PortalProtocol,
        portal_program_id: Pubkey,
        session_pda: Pubkey,
        validator_secret: &[u8; 32],
        recent_blockhash: &[u8; 32],
    ) -> (r: Option<Vec<Vec<u8>>>)
        requires
            protocol_ok(*protocol),
            can_be_sent(self@, protocol.limits),
        ensures
            match submission_transactions(
                self@,
                *protocol,
                portal_program_id,
                session_pda,
                *validator_secret,
                *recent_blockhash,
                false,
            ) {
                Some(bytes) => r matches Some(transactions) && transaction_bytes(transactions@)
                    == bytes && all_fit_packets(bytes),
                None => r is None,
            },
    {
        self.portal_transactions_inner(
            protocol,
            portal_program_id,
            session_pda,
            validator_secret,
            recent_blockhash,
            false,
        )
    }

    fn portal_transactions_inner(
        &self,
        protocol: &PortalProtocol,
        portal_program_id: Pubkey,
        session_pda: Pubkey,
        validator_secret: &[u8; 32],
        recent_blockhash: &[u8; 32],
        include_begin: bool,
    ) -> (r: Option<Vec<Vec<u8>>>)
        requires
            protocol_ok(*protocol),
            can_be_sent(self@, protocol.limits),
        ensures
            match submission_transactions(
                self@,
                *protocol,
                portal_program_id,
                session_pda,
                *validator_secret,
                *recent_blockhash,
                include_begin,
            ) {
                Some(bytes) => r matches Some(transactions) && transaction_bytes(transactions@)
                    == bytes && all_fit_packets(bytes),
                None => r is None,
            },
    {
        let validator = address_of_keypair(validator_secret);
        let target = SettlementTarget {
            program_id: portal_program_id,
            session: session_pda,
            validator,
        };
        let batches = match self.portal_instruction_batches(protocol, &target, include_begin) {
            Some(batches) => batches,
            None => {
                return None;
            },
        };
        let ghost models = batch_models(batches@);
        proof {
            let instructions = submission(self@, *protocol, target, include_begin)->0;
            if all_fit_alone(instructions, validator) {
                batches_keep_the_instructions(instructions, validator);
            }
            assert forall|b: int| 0 <= b < models.len() implies fits_packet(
                #[trigger] models[b],
                validator,
            ) by {
                assert(models[b] == batches_of(instructions, validator)[b]);
            }
        }
        let mut transactions: Vec<Vec<u8>> = Vec::new();
        let mut b: usize = 0;
        while b < batches.len()
            invariant
                b <= batches@.len(),
                models == batch_models(batches@),
                validator == keypair_address(*validator_secret),
                submission_transactions(
                    self@,
                    *protocol,
                    portal_program_id,
                    session_pda,
                    *validator_secret,
                    *recent_blockhash,
                    include_begin,
                ) == transactions_of(models, *validator_secret, *recent_blockhash),
                forall|x: int|
                    0 <= x < models.len() ==> fits_packet(#[trigger] models[x], validator),
                transactions@.len() == b,
                forall|x: int|
                    0 <= x < b ==> {
                        &&& signed_transaction(
                            #[trigger] models[x],
                            *validator_secret,
                            *recent_blockhash,
                        ) == Some(transactions@[x]@)
                        &&& transactions@[x]@.len() <= PACKET_DATA_SIZE
                    },
            decreases batches@.len() - b,
        {
            assert(models[b as int] == instruction_models(batches@[b as int]@));
            assert(fits_packet(models[b as int], validator));
            match sign_settlement_transaction(&batches[b], validator_secret, recent_blockhash) {
                Some(bytes) => {
                    assert(bytes.len() as nat == bytes@.len());
                    transactions.push(bytes);
                },
                None => {
                    assert(signed_transaction(
                        models[b as int],
                        *validator_secret,
                        *recent_blockhash,
                    ) is None);
                    return None;
                },
            }
            b += 1;
        }
        proof {
            let signed = transactions_of(models, *validator_secret, *recent_blockhash);
            assert(signed is Some);
            assert(transaction_bytes(transactions@) =~= signed->0);
        }
        Some(transactions)
    }
}

} // verus!

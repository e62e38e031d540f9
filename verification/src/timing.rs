//! Ages of blockhashes on the rollup.

use vstd::prelude::*;

verus! {

/// How long a slot of the rollup lasts, in milliseconds, unless set otherwise.
pub const DEFAULT_ER_SLOT_DURATION_MS: u64 = 50;

/// How long a slot of layer one lasts, in milliseconds.
pub const DEFAULT_MS_PER_SLOT: u64 = 400;

/// How many slots of layer one a blockhash can be used for.
pub const MAX_PROCESSING_AGE: u64 = 150;

/// How many slots of layer one a blockhash is remembered for.
pub const MAX_RECENT_BLOCKHASHES: u64 = 300;

/// How many slots of the rollup can be used for a blockhash, at the default
/// duration.
pub const DEFAULT_ER_TRANSACTION_MAX_AGE: u64 = 1200;

/// The least number of rollup slots that last at least as long as `l1_slots`
/// slots of layer one. A duration of zero counts as one millisecond.
pub open spec fn scaled_age(l1_slots: nat, slot_duration_ms: u64) -> int {
    let ms: int = if slot_duration_ms == 0 { 1 } else { slot_duration_ms as int };
    (l1_slots * DEFAULT_MS_PER_SLOT + ms - 1) / ms
}

/// The least number of rollup slots that last at least as long as a number of
/// layer-one slots.
pub fn scale_l1_slot_age_for_er(l1_slot_age: u64, slot_duration_ms: u64) -> (age: u64)
    requires
        l1_slot_age * DEFAULT_MS_PER_SLOT <= u64::MAX,
    ensures
        age == scaled_age(l1_slot_age as nat, slot_duration_ms),
{
    let ms: u64 = if slot_duration_ms == 0 {
        1
    } else {
        slot_duration_ms
    };
    let total: u64 = l1_slot_age * DEFAULT_MS_PER_SLOT;
    let whole: u64 = total / ms;
    let rest: u64 = total % ms;
    proof {
        lemma_ceiling(total as int, ms as int);
    }
    if rest == 0 {
        whole
    } else {
        whole + 1
    }
}

proof fn lemma_ceiling(total: int, ms: int)
    requires
        ms > 0,
        0 <= total <= u64::MAX,
    ensures
        total % ms == 0 ==> (total + ms - 1) / ms == total / ms,
        total % ms != 0 ==> (total + ms - 1) / ms == total / ms + 1 && total / ms < u64::MAX,
{
    let q = total / ms;
    let r = total % ms;
    vstd::arithmetic::div_mod::lemma_fundamental_div_mod(total, ms);
    vstd::arithmetic::div_mod::lemma_mod_bound(total, ms);
    assert(ms * q + r == total);
    vstd::arithmetic::div_mod::lemma_div_pos_is_pos(total, ms);
    if r == 0 {
        assert(total + ms - 1 == ms * q + (ms - 1));
        vstd::arithmetic::div_mod::lemma_fundamental_div_mod_converse(
            total + ms - 1,
            ms,
            q,
            ms - 1,
        );
    } else {
        assert(ms * (q + 1) == ms * q + ms) by (nonlinear_arith);
        vstd::arithmetic::div_mod::lemma_fundamental_div_mod_converse(
            total + ms - 1,
            ms,
            q + 1,
            r - 1,
        );
        assert(q < u64::MAX) by (nonlinear_arith)
            requires
                ms > 1,
                q >= 0,
                ms * q + r == total,
                r > 0,
                total <= u64::MAX,
        ;
    }
}

/// How old the blockhash of a transaction can be, in rollup slots.
pub fn er_transaction_max_age_for_slot_duration(slot_duration_ms: u64) -> (age: u64)
    ensures
        age == scaled_age(MAX_PROCESSING_AGE as nat, slot_duration_ms),
{
    scale_l1_slot_age_for_er(MAX_PROCESSING_AGE, slot_duration_ms)
}

/// How long a blockhash is remembered, in rollup slots.
pub fn er_recent_blockhash_max_age_for_slot_duration(slot_duration_ms: u64) -> (age: u64)
    ensures
        age == scaled_age(MAX_RECENT_BLOCKHASHES as nat, slot_duration_ms),
{
    scale_l1_slot_age_for_er(MAX_RECENT_BLOCKHASHES, slot_duration_ms)
}

/// The scaled number of slots lasts at least as long as on layer one, and one
/// slot less does not.
pub proof fn scaled_ages_last_as_long(l1_slots: nat, slot_duration_ms: u64)
    requires
        slot_duration_ms > 0,
    ensures
        scaled_age(l1_slots, slot_duration_ms) * slot_duration_ms >= l1_slots * DEFAULT_MS_PER_SLOT,
        (scaled_age(l1_slots, slot_duration_ms) - 1) * slot_duration_ms < l1_slots
            * DEFAULT_MS_PER_SLOT || l1_slots == 0,
{
    let ms = slot_duration_ms as int;
    let total = l1_slots * DEFAULT_MS_PER_SLOT;
    let age = scaled_age(l1_slots, slot_duration_ms);
    vstd::arithmetic::div_mod::lemma_fundamental_div_mod(total + ms - 1, ms);
    vstd::arithmetic::div_mod::lemma_mod_bound(total + ms - 1, ms);
    let r = (total + ms - 1) % ms;
    assert(ms * age + r == total + ms - 1);
    assert(age * ms == ms * age) by (nonlinear_arith);
    assert((age - 1) * ms == ms * age - ms) by (nonlinear_arith);
}

} // verus!

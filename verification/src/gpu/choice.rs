//! Which adapter is chosen.

use vstd::prelude::*;

use crate::gpu::{
    as_unsigned, chosen_adapter, co_located, primary_from, with_luid_from, AdapterInfo,
    AdapterSelection, GpuError,
};

verus! {

/// Whether adapter `k` is the first that has an output that is primary.
pub open spec fn is_first_primary(adapters: Seq<AdapterInfo>, k: int) -> bool {
    &&& 0 <= k < adapters.len()
    &&& exists|o: int|
        0 <= o < adapters[k].outputs@.len() && (#[trigger] adapters[k].outputs@[o]).is_primary
    &&& forall|j: int, o: int|
        0 <= j < k && 0 <= o < adapters[j].outputs@.len() ==> !(
        #[trigger] adapters[j].outputs@[o]).is_primary
}

/// The search from a place on finds the first.
proof fn lemma_primary_from(adapters: Seq<AdapterInfo>, i: int, k: int)
    requires
        0 <= i <= k,
        is_first_primary(adapters, k),
    ensures
        primary_from(adapters, i) == Some(adapters[k].index),
    decreases k - i,
{
    if i < k {
        lemma_primary_from(adapters, i + 1, k);
    }
}

/// Without a primary output nothing is found.
proof fn lemma_no_primary_from(adapters: Seq<AdapterInfo>, i: int)
    requires
        0 <= i,
        forall|j: int, o: int|
            0 <= j < adapters.len() && 0 <= o < adapters[j].outputs@.len() ==> !(
            #[trigger] adapters[j].outputs@[o]).is_primary,
    ensures
        primary_from(adapters, i) is None,
    decreases adapters.len() - i,
{
    if i < adapters.len() {
        lemma_no_primary_from(adapters, i + 1);
    }
}

/// Law: the adapter of the primary output is the first that drives one. It is chosen by its index, and
/// a device is on it exactly where the adapter that stands at that index has the device's LUID.
pub proof fn lemma_primary_adapter_is_chosen(adapters: Seq<AdapterInfo>, k: int, luid: i64)
    requires
        is_first_primary(adapters, k),
    ensures
        chosen_adapter(AdapterSelection::PrimaryOutput, adapters) == Ok::<Option<u32>, GpuError>(
            Some(adapters[k].index),
        ),
        adapters[k].index == k ==> (co_located(adapters, luid) <==> adapters[k].luid == luid),
{
    lemma_primary_from(adapters, 0, k);
    assert(adapters[k].index == adapters[k].index);
}

/// Law: without a primary output there is no adapter of one, and no device is on it.
pub proof fn lemma_no_primary_is_refused(adapters: Seq<AdapterInfo>, luid: i64)
    requires
        forall|j: int, o: int|
            0 <= j < adapters.len() && 0 <= o < adapters[j].outputs@.len() ==> !(
            #[trigger] adapters[j].outputs@[o]).is_primary,
    ensures
        chosen_adapter(AdapterSelection::PrimaryOutput, adapters) == Err::<Option<u32>, GpuError>(
            GpuError::PrimaryOutputNotFound,
        ),
        !co_located(adapters, luid),
{
    lemma_no_primary_from(adapters, 0);
}

/// Law: an index chooses itself where an adapter has it, and a LUID the index of the first adapter that
/// has it; where none has, the adapter is not found. Left to the system, none is named.
pub proof fn lemma_named_adapter_is_chosen(adapters: Seq<AdapterInfo>, k: int, index: u32, luid: i64)
    ensures
        chosen_adapter(AdapterSelection::Auto, adapters) == Ok::<Option<u32>, GpuError>(None),
        0 <= k < adapters.len() ==> chosen_adapter(
            AdapterSelection::Index(adapters[k].index),
            adapters,
        ) == Ok::<Option<u32>, GpuError>(Some(adapters[k].index)),
        (forall|j: int| 0 <= j < adapters.len() ==> (#[trigger] adapters[j]).index != index)
            ==> chosen_adapter(AdapterSelection::Index(index), adapters) == Err::<
            Option<u32>,
            GpuError,
        >(GpuError::AdapterNotFound),
        0 <= k < adapters.len() && adapters[k].luid == luid && (forall|j: int|
            0 <= j < k ==> (#[trigger] adapters[j]).luid != luid) ==> chosen_adapter(
            AdapterSelection::Luid(luid),
            adapters,
        ) == Ok::<Option<u32>, GpuError>(Some(adapters[k].index)),
        (forall|j: int| 0 <= j < adapters.len() ==> (#[trigger] adapters[j]).luid != luid)
            ==> chosen_adapter(AdapterSelection::Luid(luid), adapters) == Err::<
            Option<u32>,
            GpuError,
        >(GpuError::AdapterNotFound),
{
    if 0 <= k < adapters.len() {
        assert(adapters[k].index == adapters[k].index);
        if adapters[k].luid == luid && (forall|j: int|
            0 <= j < k ==> (#[trigger] adapters[j]).luid != luid) {
            lemma_luid_from(adapters, luid, 0, k);
        }
    }
    if forall|j: int| 0 <= j < adapters.len() ==> (#[trigger] adapters[j]).luid != luid {
        lemma_no_luid_from(adapters, luid, 0);
    }
}

/// The search from a place on finds the first adapter with a LUID.
proof fn lemma_luid_from(adapters: Seq<AdapterInfo>, luid: i64, i: int, k: int)
    requires
        0 <= i <= k < adapters.len(),
        adapters[k].luid == luid,
        forall|j: int| 0 <= j < k ==> (#[trigger] adapters[j]).luid != luid,
    ensures
        with_luid_from(adapters, luid, i) == Some(adapters[k].index),
    decreases k - i,
{
    if i < k {
        lemma_luid_from(adapters, luid, i + 1, k);
    }
}

/// Where no adapter has a LUID, none is found.
proof fn lemma_no_luid_from(adapters: Seq<AdapterInfo>, luid: i64, i: int)
    requires
        0 <= i,
        forall|j: int| 0 <= j < adapters.len() ==> (#[trigger] adapters[j]).luid != luid,
    ensures
        with_luid_from(adapters, luid, i) is None,
    decreases adapters.len() - i,
{
    if i < adapters.len() {
        lemma_no_luid_from(adapters, luid, i + 1);
    }
}

/// Law: a number is shown by its bits: one that is not negative as itself, and no two as the same.
pub proof fn lemma_luids_are_shown_apart(a: i64, b: i64)
    ensures
        a >= 0 ==> as_unsigned(a as int) == a,
        0 <= as_unsigned(a as int) <= u64::MAX,
        as_unsigned(a as int) == as_unsigned(b as int) ==> a == b,
{
}

} // verus!

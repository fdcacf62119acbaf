//! Properties of the counter operations, stated over their step functions.
use vstd::prelude::*;
use crate::address::counter_address;
use crate::counter::{increment_step, initialize_step, ErrorCode};

verus! {

/// Whether `derived` is a successful derivation whose address is `target`.
pub open spec fn derived_at(target: Seq<u8>, derived: Option<(Seq<u8>, u8)>) -> bool {
    match derived {
        Some((expected, _)) => expected == target,
        None => false,
    }
}

/// The records after `n` calls of `increment` on `target`, starting from
/// `records`.
pub open spec fn repeat_increment(
    records: Map<Seq<u8>, u64>,
    target: Seq<u8>,
    derived: Option<(Seq<u8>, u8)>,
    n: nat,
) -> Map<Seq<u8>, u64>
    decreases n,
{
    if n == 0 {
        records
    } else {
        increment_step(repeat_increment(records, target, derived, (n - 1) as nat), target, derived).1
    }
}

/// Once `initialize` has succeeded, a second `initialize` for the same
/// address fails with `AlreadyInitialized` and leaves the records, and so
/// the count of 0 from the first call, unchanged.
pub proof fn lemma_single_initialization(
    records: Map<Seq<u8>, u64>,
    target: Seq<u8>,
    derived: Option<(Seq<u8>, u8)>,
)
    requires
        initialize_step(records, target, derived).0 is Ok,
    ensures
        initialize_step(records, target, derived).1[target] == 0,
        initialize_step(initialize_step(records, target, derived).1, target, derived) == (
        Err::<(), ErrorCode>(ErrorCode::AlreadyInitialized),
        initialize_step(records, target, derived).1,
        ),
{
}

/// After one successful `initialize`, each of `n` calls of `increment`
/// succeeds (for `n` up to `u64::MAX`) and the count ends at `n`.
pub proof fn lemma_increments_count(
    records: Map<Seq<u8>, u64>,
    target: Seq<u8>,
    derived: Option<(Seq<u8>, u8)>,
    n: nat,
)
    requires
        initialize_step(records, target, derived).0 is Ok,
        n <= u64::MAX,
    ensures
        forall|k: nat| k < n ==> (#[trigger] increment_step(
            repeat_increment(initialize_step(records, target, derived).1, target, derived, k),
            target,
            derived,
        )).0 is Ok,
        repeat_increment(initialize_step(records, target, derived).1, target, derived, n)[target] == n,
{
    let start = initialize_step(records, target, derived).1;
    assert forall|k: nat| k <= n implies {
        &&& #[trigger] repeat_increment(start, target, derived, k).contains_key(target)
        &&& repeat_increment(start, target, derived, k)[target] == k
    } by {
        lemma_increments_reach(start, target, derived, k);
    }
    assert forall|k: nat| k < n implies (#[trigger] increment_step(
        repeat_increment(start, target, derived, k),
        target,
        derived,
    )).0 is Ok by {
        lemma_increments_reach(start, target, derived, k);
    }
    lemma_increments_reach(start, target, derived, n);
}

proof fn lemma_increments_reach(
    start: Map<Seq<u8>, u64>,
    target: Seq<u8>,
    derived: Option<(Seq<u8>, u8)>,
    k: nat,
)
    requires
        derived_at(target, derived),
        start.contains_key(target),
        start[target] == 0,
        k <= u64::MAX,
    ensures
        repeat_increment(start, target, derived, k).contains_key(target),
        repeat_increment(start, target, derived, k)[target] == k,
    decreases k,
{
    if k > 0 {
        lemma_increments_reach(start, target, derived, (k - 1) as nat);
    }
}

/// At the largest count, `increment` fails with `Overflow` and the count
/// stays at `u64::MAX`.
pub proof fn lemma_overflow_atomic(
    records: Map<Seq<u8>, u64>,
    target: Seq<u8>,
    derived: Option<(Seq<u8>, u8)>,
)
    requires
        derived_at(target, derived),
        records.contains_key(target),
        records[target] == u64::MAX,
    ensures
        increment_step(records, target, derived) == (Err::<(), ErrorCode>(ErrorCode::Overflow), records),
{
}

/// An operation on behalf of owner `a` leaves the record of owner `b`
/// untouched, whatever counter address it is given, as long as the two
/// owners' derived addresses differ.
pub proof fn lemma_isolation(
    records: Map<Seq<u8>, u64>,
    program: Seq<u8>,
    owner_a: Seq<u8>,
    owner_b: Seq<u8>,
    target: Seq<u8>,
    address_b: Seq<u8>,
)
    requires
        counter_address(owner_b, program) matches Some((b, _)) && b == address_b,
        counter_address(owner_a, program) matches Some((a, _)) ==> a != address_b,
    ensures
        initialize_step(records, target, counter_address(owner_a, program)).1.contains_key(address_b)
            == records.contains_key(address_b),
        initialize_step(records, target, counter_address(owner_a, program)).1[address_b]
            == records[address_b],
        increment_step(records, target, counter_address(owner_a, program)).1.contains_key(address_b)
            == records.contains_key(address_b),
        increment_step(records, target, counter_address(owner_a, program)).1[address_b]
            == records[address_b],
{
}

/// `increment` on a counter address that holds no record yet fails with
/// `RecordNotFound` and changes nothing.
pub proof fn lemma_increment_needs_record(
    records: Map<Seq<u8>, u64>,
    target: Seq<u8>,
    derived: Option<(Seq<u8>, u8)>,
)
    requires
        derived_at(target, derived),
        !records.contains_key(target),
    ensures
        increment_step(records, target, derived) == (Err::<(), ErrorCode>(ErrorCode::RecordNotFound), records),
{
}

} // verus!

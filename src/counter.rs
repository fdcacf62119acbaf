//! The counter records and the two operations that create and advance them.
use vstd::prelude::*;
use crate::address::{counter_address, derive_counter_address, derived_view, DerivedAddress};

verus! {

/// The record stored at a counter's address.
#[derive(Clone, Copy, Debug, PartialEq, Eq)]
pub struct Counter {
    pub count: u64,
}

/// Why an operation on a counter was refused. Every refusal leaves the
/// records as they were.
#[derive(Clone, Copy, Debug, PartialEq, Eq)]
pub enum ErrorCode {
    /// The checked increment would exceed `u64::MAX`.
    Overflow,
    /// The supplied counter address is not the one derived from the owner.
    AddressMismatch,
    /// A record already exists at the counter address.
    AlreadyInitialized,
    /// No record exists yet at the counter address.
    RecordNotFound,
    /// No bump seed yields a valid derived address.
    AddressDerivationExhausted,
}

/// The accounts of an `initialize` call: the counter address to create and
/// the (already authenticated) owner who pays for it.
#[derive(Clone, Copy, Debug, PartialEq, Eq)]
pub struct Initialize {
    pub counter: [u8; 32],
    pub user: [u8; 32],
}

/// The accounts of an `increment` call: the counter address to advance and
/// its (already authenticated) owner.
#[derive(Clone, Copy, Debug, PartialEq, Eq)]
pub struct Increment {
    pub counter: [u8; 32],
    pub user: [u8; 32],
}

/// One allocated record and its address.
#[derive(Clone, Copy, Debug)]
struct Slot {
    address: [u8; 32],
    account: Counter,
}

/// The counter program's storage: its program id and the records it has
/// allocated, at most one per address.
#[derive(Debug)]
pub struct Ledger {
    program_id: [u8; 32],
    slots: Vec<Slot>,
}

/// The outcome of `initialize` on the records `records`, for the counter
/// address `target` and the derivation outcome `derived` of the owner's
/// address: the result and the records afterwards.
pub open spec fn initialize_step(
    records: Map<Seq<u8>, u64>,
    target: Seq<u8>,
    derived: Option<(Seq<u8>, u8)>,
) -> (Result<(), ErrorCode>, Map<Seq<u8>, u64>) {
    match derived {
        None => (Err(ErrorCode::AddressDerivationExhausted), records),
        Some((expected, _)) => if target != expected {
            (Err(ErrorCode::AddressMismatch), records)
        } else if records.contains_key(target) {
            (Err(ErrorCode::AlreadyInitialized), records)
        } else {
            (Ok(()), records.insert(target, 0))
        },
    }
}

/// The outcome of `increment` on the records `records`, for the counter
/// address `target` and the derivation outcome `derived` of the owner's
/// address: the result and the records afterwards.
pub open spec fn increment_step(
    records: Map<Seq<u8>, u64>,
    target: Seq<u8>,
    derived: Option<(Seq<u8>, u8)>,
) -> (Result<(), ErrorCode>, Map<Seq<u8>, u64>) {
    match derived {
        None => (Err(ErrorCode::AddressDerivationExhausted), records),
        Some((expected, _)) => if target != expected {
            (Err(ErrorCode::AddressMismatch), records)
        } else if !records.contains_key(target) {
            (Err(ErrorCode::RecordNotFound), records)
        } else if records[target] == u64::MAX {
            (Err(ErrorCode::Overflow), records)
        } else {
            (Ok(()), records.insert(target, (records[target] + 1) as u64))
        },
    }
}

/// Whether two addresses hold the same bytes.
fn same_address(a: &[u8; 32], b: &[u8; 32]) -> (r: bool)
    ensures
        r == (a@ == b@),
{
    let mut i: usize = 0;
    while i < 32
        invariant
            0 <= i <= 32,
            a@.len() == 32,
            b@.len() == 32,
            forall|k: int| 0 <= k < i ==> a@[k] == b@[k],
        decreases 32 - i,
    {
        if a[i] != b[i] {
            return false;
        }
        i = i + 1;
    }
    assert(a@ =~= b@);
    true
}

impl View for Ledger {
    type V = Map<Seq<u8>, u64>;

    /// The count stored at each allocated address.
    closed spec fn view(&self) -> Map<Seq<u8>, u64> {
        Map::new(
            |a: Seq<u8>| exists|i: int| 0 <= i < self.slots@.len() && self.slots@[i].address@ == a,
            |a: Seq<u8>|
                self.slots@[choose|i: int| 0 <= i < self.slots@.len() && self.slots@[i].address@ == a].account.count,
        )
    }
}

impl Ledger {
    /// No two records share an address.
    pub closed spec fn wf(&self) -> bool {
        forall|i: int, j: int|
            0 <= i < self.slots@.len() && 0 <= j < self.slots@.len() && i != j
                ==> self.slots@[i].address@ != self.slots@[j].address@
    }

    /// The id of the program whose counters this ledger holds.
    pub closed spec fn program(&self) -> Seq<u8> {
        self.program_id@
    }

    proof fn lemma_view_at(&self, i: int)
        requires
            self.wf(),
            0 <= i < self.slots@.len(),
        ensures
            self@.contains_key(self.slots@[i].address@),
            self@[self.slots@[i].address@] == self.slots@[i].account.count,
    {
        let a = self.slots@[i].address@;
        assert(0 <= i < self.slots@.len() && self.slots@[i].address@ == a);
        let j = choose|j: int| 0 <= j < self.slots@.len() && self.slots@[j].address@ == a;
        assert(i == j);
    }

    /// A ledger of the program `program_id` with no records.
    pub fn new(program_id: [u8; 32]) -> (r: Ledger)
        ensures
            r.wf(),
            r.program() == program_id@,
            r@ == Map::<Seq<u8>, u64>::empty(),
    {
        let r = Ledger { program_id, slots: Vec::new() };
        assert(r@ =~= Map::<Seq<u8>, u64>::empty());
        r
    }

    /// The id of the program whose counters this ledger holds.
    pub fn program_id(&self) -> (r: [u8; 32])
        ensures
            r@ == self.program(),
    {
        self.program_id
    }

    /// Position of the record at `address`, if there is one.
    fn find(&self, address: &[u8; 32]) -> (r: Option<usize>)
        requires
            self.wf(),
        ensures
            match r {
                Some(i) => i < self.slots@.len() && self.slots@[i as int].address@ == address@,
                None => !self@.contains_key(address@),
            },
    {
        let mut i: usize = 0;
        while i < self.slots.len()
            invariant
                self.wf(),
                0 <= i <= self.slots@.len(),
                forall|k: int| 0 <= k < i ==> self.slots@[k].address@ != address@,
            decreases self.slots@.len() - i,
        {
            if same_address(&self.slots[i].address, address) {
                return Some(i);
            }
            i = i + 1;
        }
        None
    }

    /// The count stored at `address`, or `None` when no record is there.
    pub fn count_of(&self, address: &[u8; 32]) -> (r: Option<u64>)
        requires
            self.wf(),
        ensures
            r == (if self@.contains_key(address@) { Some(self@[address@]) } else { None::<u64> }),
    {
        match self.find(address) {
            Some(i) => {
                proof { self.lemma_view_at(i as int); }
                Some(self.slots[i].account.count)
            },
            None => None,
        }
    }

    /// Writes the record `account` at `address`, creating it when the
    /// address holds none: the storage-level write that the host performs
    /// when it hands the program its accounts.
    pub fn put(&mut self, address: [u8; 32], account: Counter)
        requires
            old(self).wf(),
        ensures
            final(self).wf(),
            final(self).program() == old(self).program(),
            final(self)@ == old(self)@.insert(address@, account.count),
    {
        match self.find(&address) {
            Some(i) => self.store(i, account.count),
            None => self.allocate(address, account.count),
        }
    }

    /// Allocates a record with `count` at `address`, which holds none.
    fn allocate(&mut self, address: [u8; 32], count: u64)
        requires
            old(self).wf(),
            !old(self)@.contains_key(address@),
        ensures
            final(self).wf(),
            final(self).program() == old(self).program(),
            final(self)@ == old(self)@.insert(address@, count),
    {
        let ghost before = *self;
        self.slots.push(Slot { address, account: Counter { count } });
        let ghost n = before.slots@.len() as int;
        assert forall|i: int| 0 <= i < n implies self.slots@[i] == before.slots@[i] by {}
        assert forall|i: int| 0 <= i < n implies self.slots@[i].address@ != address@ by {
            before.lemma_view_at(i);
        }
        assert(self.wf());
        assert forall|a: Seq<u8>| #[trigger] self@.contains_key(a) <==> before@.insert(address@, count).contains_key(a) by {
            if self@.contains_key(a) {
                let i = choose|i: int| 0 <= i < self.slots@.len() && self.slots@[i].address@ == a;
                if i < n {
                    before.lemma_view_at(i);
                }
            }
            if before@.contains_key(a) {
                let i = choose|i: int| 0 <= i < before.slots@.len() && before.slots@[i].address@ == a;
                self.lemma_view_at(i);
            }
            if a == address@ {
                self.lemma_view_at(n);
            }
        }
        assert forall|a: Seq<u8>| #[trigger] self@.contains_key(a) implies self@[a] == before@.insert(address@, count)[a] by {
            let i = choose|i: int| 0 <= i < self.slots@.len() && self.slots@[i].address@ == a;
            self.lemma_view_at(i);
            if i < n {
                before.lemma_view_at(i);
            }
        }
        assert(self@ =~= before@.insert(address@, count));
    }

    /// Sets the count of the record at position `i` to `count`.
    fn store(&mut self, i: usize, count: u64)
        requires
            old(self).wf(),
            i < old(self).slots@.len(),
        ensures
            final(self).wf(),
            final(self).program() == old(self).program(),
            final(self)@ == old(self)@.insert(old(self).slots@[i as int].address@, count),
            final(self).slots@[i as int].address@ == old(self).slots@[i as int].address@,
    {
        let ghost before = *self;
        let address = self.slots[i].address;
        self.slots.set(i, Slot { address, account: Counter { count } });
        assert(self.wf());
        assert forall|a: Seq<u8>| #[trigger] self@.contains_key(a) <==> before@.insert(address@, count).contains_key(a) by {
            if self@.contains_key(a) {
                let j = choose|j: int| 0 <= j < self.slots@.len() && self.slots@[j].address@ == a;
                before.lemma_view_at(j);
            }
            if before@.contains_key(a) {
                let j = choose|j: int| 0 <= j < before.slots@.len() && before.slots@[j].address@ == a;
                self.lemma_view_at(j);
            }
            if a == address@ {
                self.lemma_view_at(i as int);
            }
        }
        assert forall|a: Seq<u8>| #[trigger] self@.contains_key(a) implies self@[a] == before@.insert(address@, count)[a] by {
            let j = choose|j: int| 0 <= j < self.slots@.len() && self.slots@[j].address@ == a;
            self.lemma_view_at(j);
            before.lemma_view_at(j);
        }
        assert(self@ =~= before@.insert(address@, count));
    }
}

/// Creates the counter at `ctx.counter` with count 0, given the outcome
/// `derived` of deriving the owner's counter address.
pub fn initialize_with(ledger: &mut Ledger, ctx: &Initialize, derived: Option<DerivedAddress>) -> (r: Result<(), ErrorCode>)
    requires
        old(ledger).wf(),
    ensures
        final(ledger).wf(),
        final(ledger).program() == old(ledger).program(),
        (r, final(ledger)@) == initialize_step(old(ledger)@, ctx.counter@, derived_view(derived)),
{
    let expected = match derived {
        Some(d) => d.address,
        None => return Err(ErrorCode::AddressDerivationExhausted),
    };
    if !same_address(&ctx.counter, &expected) {
        return Err(ErrorCode::AddressMismatch);
    }
    match ledger.find(&ctx.counter) {
        Some(i) => {
            proof { ledger.lemma_view_at(i as int); }
            Err(ErrorCode::AlreadyInitialized)
        },
        None => {
            ledger.allocate(ctx.counter, 0);
            Ok(())
        },
    }
}

/// Creates the counter of `ctx.user` with count 0. The counter address
/// must be the one derived from `["counter", ctx.user]` under the ledger's
/// program, and must hold no record yet.
pub fn initialize(ledger: &mut Ledger, ctx: &Initialize) -> (r: Result<(), ErrorCode>)
    requires
        old(ledger).wf(),
    ensures
        final(ledger).wf(),
        final(ledger).program() == old(ledger).program(),
        (r, final(ledger)@) == initialize_step(
            old(ledger)@,
            ctx.counter@,
            counter_address(ctx.user@, old(ledger).program()),
        ),
{
    let program_id = ledger.program_id();
    let derived = derive_counter_address(&ctx.user, &program_id);
    initialize_with(ledger, ctx, derived)
}

/// Adds one to the counter at `ctx.counter`, given the outcome `derived` of
/// deriving the owner's counter address.
pub fn increment_with(ledger: &mut Ledger, ctx: &Increment, derived: Option<DerivedAddress>) -> (r: Result<(), ErrorCode>)
    requires
        old(ledger).wf(),
    ensures
        final(ledger).wf(),
        final(ledger).program() == old(ledger).program(),
        (r, final(ledger)@) == increment_step(old(ledger)@, ctx.counter@, derived_view(derived)),
{
    let expected = match derived {
        Some(d) => d.address,
        None => return Err(ErrorCode::AddressDerivationExhausted),
    };
    if !same_address(&ctx.counter, &expected) {
        return Err(ErrorCode::AddressMismatch);
    }
    match ledger.find(&ctx.counter) {
        Some(i) => {
            proof { ledger.lemma_view_at(i as int); }
            let count = ledger.slots[i].account.count;
            match count.checked_add(1) {
                Some(next) => {
                    ledger.store(i, next);
                    Ok(())
                },
                None => Err(ErrorCode::Overflow),
            }
        },
        None => Err(ErrorCode::RecordNotFound),
    }
}

/// Adds one to the counter of `ctx.user` with a checked addition. The
/// counter address must be the one derived from `["counter", ctx.user]`
/// under the ledger's program, and must already hold a record.
pub fn increment(ledger: &mut Ledger, ctx: &Increment) -> (r: Result<(), ErrorCode>)
    requires
        old(ledger).wf(),
    ensures
        final(ledger).wf(),
        final(ledger).program() == old(ledger).program(),
        (r, final(ledger)@) == increment_step(
            old(ledger)@,
            ctx.counter@,
            counter_address(ctx.user@, old(ledger).program()),
        ),
{
    let program_id = ledger.program_id();
    let derived = derive_counter_address(&ctx.user, &program_id);
    increment_with(ledger, ctx, derived)
}

} // verus!

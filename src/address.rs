//! Deterministic derivation of a counter's storage address from its owner.
use vstd::prelude::*;

verus! {

/// Namespace tag that prefixes every counter address derivation: the bytes
/// of `"counter"`.
pub open spec fn counter_tag() -> Seq<u8> {
    seq![99u8, 111u8, 117u8, 110u8, 116u8, 101u8, 114u8]
}

/// The program-derived address, with its bump, that the platform's search
/// yields for the seeds `[tag, owner]` under `program`; `None` when no bump
/// gives a valid address.
pub uninterp spec fn program_address_of(tag: Seq<u8>, owner: Seq<u8>, program: Seq<u8>) -> Option<(Seq<u8>, u8)>;

/// Relies on anchor_lang's `Pubkey::try_find_program_address`, which searches
/// the bump seeds from 255 down and returns the first address off the curve,
/// or `None`; its result depends on the seeds and the program id alone.
#[verifier::external_body]
fn try_find_program_address(tag: &[u8], owner: &[u8; 32], program_id: &[u8; 32]) -> (r: Option<([u8; 32], u8)>)
    ensures
        match r {
            Some((a, b)) => program_address_of(tag@, owner@, program_id@) == Some((a@, b)),
            None => program_address_of(tag@, owner@, program_id@) is None,
        },
{
    let program = anchor_lang::prelude::Pubkey::new_from_array(*program_id);
    match anchor_lang::prelude::Pubkey::try_find_program_address(&[tag, owner.as_slice()], &program) {
        Some((address, bump)) => Some((address.to_bytes(), bump)),
        None => None,
    }
}

/// A derived storage address and the bump seed that made it valid.
#[derive(Clone, Copy, Debug, PartialEq, Eq)]
pub struct DerivedAddress {
    pub address: [u8; 32],
    pub bump: u8,
}

/// What deriving the counter address of `owner` under `program` yields.
pub open spec fn counter_address(owner: Seq<u8>, program: Seq<u8>) -> Option<(Seq<u8>, u8)> {
    program_address_of(counter_tag(), owner, program)
}

/// The view of a derivation outcome: the address bytes and the bump.
pub open spec fn derived_view(d: Option<DerivedAddress>) -> Option<(Seq<u8>, u8)> {
    match d {
        Some(x) => Some((x.address@, x.bump)),
        None => None,
    }
}

/// Whether `r` is the outcome of deriving the counter address of `owner`
/// under `program`.
pub open spec fn derives(owner: Seq<u8>, program: Seq<u8>, r: Option<DerivedAddress>) -> bool {
    derived_view(r) == counter_address(owner, program)
}

/// Derives the address of `owner`'s counter under the program `program_id`,
/// from the seeds `["counter", owner]`; `None` when the bump search fails.
pub fn derive_counter_address(owner: &[u8; 32], program_id: &[u8; 32]) -> (r: Option<DerivedAddress>)
    ensures
        derives(owner@, program_id@, r),
{
    let tag: [u8; 7] = [99u8, 111u8, 117u8, 110u8, 116u8, 101u8, 114u8];
    assert(tag@ =~= counter_tag());
    match try_find_program_address(tag.as_slice(), owner, program_id) {
        Some((address, bump)) => Some(DerivedAddress { address, bump }),
        None => None,
    }
}

/// Deriving is deterministic: two derivations for the same owner under the
/// same program give the same address and bump.
pub proof fn lemma_derivation_deterministic(
    owner: Seq<u8>,
    program: Seq<u8>,
    first: Option<DerivedAddress>,
    second: Option<DerivedAddress>,
)
    requires
        derives(owner, program, first),
        derives(owner, program, second),
    ensures
        first == second,
{
    if first is Some {
        let (a, b) = (first.unwrap(), second.unwrap());
        assert(a.address@ =~= b.address@);
        assert(a.address == b.address);
    }
}

} // verus!

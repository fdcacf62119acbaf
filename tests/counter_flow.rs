use counter::address::{derive_counter_address, DerivedAddress};
use counter::counter::{
    increment, increment_with, initialize, initialize_with, Counter, ErrorCode, Increment,
    Initialize, Ledger,
};

const PROGRAM: [u8; 32] = [7u8; 32];

fn address_of(user: [u8; 32]) -> [u8; 32] {
    derive_counter_address(&user, &PROGRAM).unwrap().address
}

fn init_ctx(user: [u8; 32]) -> Initialize {
    Initialize { counter: address_of(user), user }
}

fn inc_ctx(user: [u8; 32]) -> Increment {
    Increment { counter: address_of(user), user }
}

#[test]
fn derivation_matches_known_address() {
    let d = derive_counter_address(&[9u8; 32], &PROGRAM).unwrap();
    let expected: [u8; 32] = [
        160, 120, 181, 115, 212, 133, 123, 144, 150, 23, 14, 0, 171, 229, 130, 166, 196, 121, 209,
        235, 95, 125, 59, 193, 164, 177, 131, 146, 18, 46, 218, 186,
    ];
    assert_eq!(d.address, expected);
    assert_eq!(d.bump, 255);
}

#[test]
fn derivation_searches_below_top_bump() {
    let d = derive_counter_address(&[1u8; 32], &PROGRAM).unwrap();
    let expected: [u8; 32] = [
        159, 30, 93, 23, 124, 171, 189, 198, 79, 206, 70, 241, 121, 140, 138, 231, 78, 74, 208,
        109, 23, 230, 243, 170, 72, 185, 6, 136, 102, 161, 93, 206,
    ];
    assert_eq!(d.address, expected);
    assert_eq!(d.bump, 254);
}

#[test]
fn derivation_is_deterministic() {
    let user = [42u8; 32];
    let first = derive_counter_address(&user, &PROGRAM);
    let second = derive_counter_address(&user, &PROGRAM);
    assert!(first.is_some());
    assert_eq!(first, second);
}

#[test]
fn derivation_differs_between_owners_and_programs() {
    let a = derive_counter_address(&[1u8; 32], &PROGRAM).unwrap();
    let b = derive_counter_address(&[2u8; 32], &PROGRAM).unwrap();
    let c = derive_counter_address(&[1u8; 32], &[8u8; 32]).unwrap();
    assert_ne!(a.address, b.address);
    assert_ne!(a.address, c.address);
    assert_ne!(a.address, [1u8; 32]);
}

#[test]
fn initialize_sets_count_to_zero() {
    let user = [9u8; 32];
    let mut ledger = Ledger::new(PROGRAM);
    assert_eq!(ledger.count_of(&address_of(user)), None);
    assert_eq!(initialize(&mut ledger, &init_ctx(user)), Ok(()));
    assert_eq!(ledger.count_of(&address_of(user)), Some(0));
}

#[test]
fn scenario_initialize_increment_three_then_reinitialize() {
    let user = [9u8; 32];
    let mut ledger = Ledger::new(PROGRAM);
    assert_eq!(initialize(&mut ledger, &init_ctx(user)), Ok(()));
    assert_eq!(ledger.count_of(&address_of(user)), Some(0));
    for _ in 0..3 {
        assert_eq!(increment(&mut ledger, &inc_ctx(user)), Ok(()));
    }
    assert_eq!(ledger.count_of(&address_of(user)), Some(3));
    assert_eq!(
        initialize(&mut ledger, &init_ctx(user)),
        Err(ErrorCode::AlreadyInitialized)
    );
    assert_eq!(ledger.count_of(&address_of(user)), Some(3));
}

#[test]
fn second_initialize_fails_and_keeps_count() {
    let user = [3u8; 32];
    let mut ledger = Ledger::new(PROGRAM);
    assert_eq!(initialize(&mut ledger, &init_ctx(user)), Ok(()));
    assert_eq!(
        initialize(&mut ledger, &init_ctx(user)),
        Err(ErrorCode::AlreadyInitialized)
    );
    assert_eq!(ledger.count_of(&address_of(user)), Some(0));
}

#[test]
fn increments_count_up_to_n() {
    let user = [4u8; 32];
    let mut ledger = Ledger::new(PROGRAM);
    assert_eq!(initialize(&mut ledger, &init_ctx(user)), Ok(()));
    for _ in 0..10 {
        assert_eq!(increment(&mut ledger, &inc_ctx(user)), Ok(()));
    }
    assert_eq!(ledger.count_of(&address_of(user)), Some(10));
}

#[test]
fn increment_at_max_overflows_and_keeps_count() {
    let user = [5u8; 32];
    let mut ledger = Ledger::new(PROGRAM);
    assert_eq!(initialize(&mut ledger, &init_ctx(user)), Ok(()));
    ledger.put(address_of(user), Counter { count: u64::MAX - 1 });
    assert_eq!(increment(&mut ledger, &inc_ctx(user)), Ok(()));
    assert_eq!(ledger.count_of(&address_of(user)), Some(u64::MAX));
    assert_eq!(increment(&mut ledger, &inc_ctx(user)), Err(ErrorCode::Overflow));
    assert_eq!(ledger.count_of(&address_of(user)), Some(u64::MAX));
}

#[test]
fn increment_before_initialize_is_record_not_found() {
    let user = [6u8; 32];
    let mut ledger = Ledger::new(PROGRAM);
    assert_eq!(
        increment(&mut ledger, &inc_ctx(user)),
        Err(ErrorCode::RecordNotFound)
    );
    assert_eq!(ledger.count_of(&address_of(user)), None);
}

#[test]
fn owners_are_isolated() {
    let a = [10u8; 32];
    let b = [11u8; 32];
    let mut ledger = Ledger::new(PROGRAM);
    assert_eq!(initialize(&mut ledger, &init_ctx(a)), Ok(()));
    assert_eq!(initialize(&mut ledger, &init_ctx(b)), Ok(()));
    assert_eq!(increment(&mut ledger, &inc_ctx(a)), Ok(()));
    assert_eq!(increment(&mut ledger, &inc_ctx(a)), Ok(()));
    assert_eq!(ledger.count_of(&address_of(a)), Some(2));
    assert_eq!(ledger.count_of(&address_of(b)), Some(0));
    assert_eq!(
        initialize(&mut ledger, &init_ctx(a)),
        Err(ErrorCode::AlreadyInitialized)
    );
    assert_eq!(ledger.count_of(&address_of(b)), Some(0));
}

#[test]
fn foreign_address_is_rejected() {
    let a = [12u8; 32];
    let b = [13u8; 32];
    let mut ledger = Ledger::new(PROGRAM);
    assert_eq!(initialize(&mut ledger, &init_ctx(b)), Ok(()));
    let spoof_init = Initialize { counter: address_of(b), user: a };
    assert_eq!(initialize(&mut ledger, &spoof_init), Err(ErrorCode::AddressMismatch));
    let spoof_inc = Increment { counter: address_of(b), user: a };
    assert_eq!(increment(&mut ledger, &spoof_inc), Err(ErrorCode::AddressMismatch));
    assert_eq!(ledger.count_of(&address_of(b)), Some(0));
    assert_eq!(ledger.count_of(&address_of(a)), None);
}

#[test]
fn address_from_another_program_is_rejected() {
    let user = [14u8; 32];
    let mut ledger = Ledger::new([8u8; 32]);
    assert_eq!(initialize(&mut ledger, &init_ctx(user)), Err(ErrorCode::AddressMismatch));
    assert_eq!(ledger.program_id(), [8u8; 32]);
}

#[test]
fn failed_derivation_is_reported() {
    let mut ledger = Ledger::new(PROGRAM);
    let ctx = Initialize { counter: [1u8; 32], user: [2u8; 32] };
    assert_eq!(
        initialize_with(&mut ledger, &ctx, None),
        Err(ErrorCode::AddressDerivationExhausted)
    );
    let ictx = Increment { counter: [1u8; 32], user: [2u8; 32] };
    assert_eq!(
        increment_with(&mut ledger, &ictx, None),
        Err(ErrorCode::AddressDerivationExhausted)
    );
    assert_eq!(ledger.count_of(&[1u8; 32]), None);
}

#[test]
fn explicit_derivation_outcome_is_checked() {
    let mut ledger = Ledger::new(PROGRAM);
    let ctx = Initialize { counter: [1u8; 32], user: [2u8; 32] };
    let derived = Some(DerivedAddress { address: [1u8; 32], bump: 200 });
    assert_eq!(initialize_with(&mut ledger, &ctx, derived), Ok(()));
    let ictx = Increment { counter: [1u8; 32], user: [2u8; 32] };
    assert_eq!(increment_with(&mut ledger, &ictx, derived), Ok(()));
    let other = Some(DerivedAddress { address: [3u8; 32], bump: 200 });
    assert_eq!(increment_with(&mut ledger, &ictx, other), Err(ErrorCode::AddressMismatch));
    assert_eq!(ledger.count_of(&[1u8; 32]), Some(1));
}

#[test]
fn put_overwrites_a_record() {
    let mut ledger = Ledger::new(PROGRAM);
    ledger.put([5u8; 32], Counter { count: 17 });
    ledger.put([5u8; 32], Counter { count: 4 });
    assert_eq!(ledger.count_of(&[5u8; 32]), Some(4));
}

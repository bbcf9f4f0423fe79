use ferrite_db::admission::{admit_step, capacity_for_cores, SearchAdmission, DEFAULT_CAPACITY_MULTIPLE};
use ferrite_db::errors::Error;

#[test]
fn admits_up_to_capacity_then_sheds() {
    let gate = SearchAdmission::new(3);
    let first = gate.try_admit().unwrap();
    let second = gate.try_admit().unwrap();
    let third = gate.try_admit().unwrap();
    assert_eq!(gate.in_flight(), 3);
    assert!(std::ptr::eq(first.gate(), &*gate));
    assert!(std::ptr::eq(second.gate(), &*gate));
    assert!(std::ptr::eq(third.gate(), &*gate));

    // At capacity: admit is rejected immediately, no queue.
    assert!(matches!(gate.try_admit(), Err(Error::Busy)));

    // Releasing one slot reopens admission.
    drop(first);
    assert_eq!(gate.in_flight(), 2);
    assert!(gate.try_admit().is_ok());
}

#[test]
fn zero_capacity_always_sheds() {
    let gate = SearchAdmission::new(0);
    assert!(matches!(gate.try_admit(), Err(Error::Busy)));
}

#[test]
fn permits_return_their_slot_when_dropped() {
    let gate = SearchAdmission::new(1);
    {
        let _permit = gate.try_admit().unwrap();
        assert_eq!(gate.in_flight(), 1);
        assert!(matches!(gate.try_admit(), Err(Error::Busy)));
    }
    assert_eq!(gate.in_flight(), 0);
    assert_eq!(gate.capacity(), 1);
}

#[test]
fn default_capacity_is_a_multiple_of_the_cores() {
    assert_eq!(DEFAULT_CAPACITY_MULTIPLE, 2);
    assert_eq!(capacity_for_cores(8), 16);
    assert_eq!(capacity_for_cores(0), 1);
    assert_eq!(capacity_for_cores(usize::MAX), usize::MAX);
    assert_eq!(SearchAdmission::with_default_capacity(4).capacity(), 8);
}

#[test]
fn admit_step_counts_up_to_capacity() {
    assert_eq!(admit_step(0, 2), Some(1));
    assert_eq!(admit_step(1, 2), Some(2));
    assert_eq!(admit_step(2, 2), None);
    assert_eq!(admit_step(0, 0), None);
}

#[test]
fn default_capacity_is_positive_and_documented_multiple() {
    for cores in [1usize, 2, 8, 64] {
        let capacity = capacity_for_cores(cores);
        assert!(capacity >= 1);
        assert_eq!(capacity, cores * DEFAULT_CAPACITY_MULTIPLE);
        assert_eq!(capacity, SearchAdmission::with_default_capacity(cores).capacity());
    }
    // An unreadable core count counts as none: the capacity never drops below one.
    assert_eq!(capacity_for_cores(0), 1);
}

#[test]
fn attempt_admission_grants_below_capacity_only() {
    let gate = SearchAdmission::new(1);
    let (first, _) = gate.attempt_admission();
    let first = first.expect("one permit is free");
    assert_eq!(gate.in_flight(), 1);
    let (second, _) = gate.attempt_admission();
    assert!(matches!(second, Err(Error::Busy)));
    drop(first);
    let (third, _) = gate.attempt_admission();
    assert!(third.is_ok());
}

use polar_core::counter::Counter;
use polar_core::counter::ID_MODULUS;

#[test]
fn counter_starts_at_zero_and_counts_up() {
    let counter = Counter::default();
    assert_eq!(counter.next(), 0);
    assert_eq!(counter.next(), 1);
    assert_eq!(counter.next(), 2);
}

#[test]
fn clones_share_one_sequence() {
    let counter = Counter::default();
    let other = counter.clone();
    assert_eq!(counter.next(), 0);
    assert_eq!(other.next(), 1);
    assert_eq!(counter.next(), 2);
    let third = other.clone();
    assert_eq!(third.next(), 3);
    assert_eq!(counter.next(), 4);
}

#[test]
fn separate_counters_count_apart() {
    let a = Counter::default();
    let b = Counter::default();
    assert_eq!(a.next(), 0);
    assert_eq!(a.next(), 1);
    assert_eq!(b.next(), 0);
}

#[test]
fn modulus_is_two_to_the_52() {
    assert_eq!(ID_MODULUS, 1u64 << 52);
    assert_eq!(ID_MODULUS, 4503599627370496);
}

#[test]
fn counter_wraps_around_to_zero() {
    let counter = Counter::default();
    counter.store(ID_MODULUS - 1);
    assert_eq!(counter.next(), ID_MODULUS - 1);
    assert_eq!(counter.next(), 0);
    assert_eq!(counter.next(), 1);
}

#[test]
fn store_reaches_every_handle() {
    let counter = Counter::default();
    let other = counter.clone();
    counter.store(100);
    assert_eq!(other.next(), 100);
    assert_eq!(counter.next(), 101);
}

#[test]
fn tickets_may_wrap_around_too() {
    let counter = Counter::default();
    counter.store(u64::MAX);
    assert_eq!(counter.next(), ID_MODULUS - 1);
    assert_eq!(counter.next(), 0);
}

#[test]
fn id_for_reduces_the_ticket() {
    assert_eq!(Counter::id_for(0), 0);
    assert_eq!(Counter::id_for(ID_MODULUS - 1), ID_MODULUS - 1);
    assert_eq!(Counter::id_for(ID_MODULUS), 0);
    assert_eq!(Counter::id_for(ID_MODULUS + 5), 5);
    assert_eq!(Counter::id_for(u64::MAX), ID_MODULUS - 1);
}

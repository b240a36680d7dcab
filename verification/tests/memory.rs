use sparkx::{QueryMemory, SparkXError};

#[test]
fn reservations_enforce_the_query_limit_and_release_on_drop() {
    let mut memory = QueryMemory::new(100);
    let reservation = memory.try_reserve(60).unwrap();

    assert_eq!(reservation.bytes(), 60);
    assert_eq!(memory.reserved_bytes(), 60);
    assert_eq!(memory.peak_bytes(), 60);

    let error = memory.try_reserve(41).unwrap_err();
    assert!(matches!(error, SparkXError::ResourceExhausted(_)));
    assert_eq!(memory.reserved_bytes(), 60);

    reservation.release(&mut memory);
    assert_eq!(memory.reserved_bytes(), 0);
    assert_eq!(memory.peak_bytes(), 60);
}

#[test]
fn reservations_can_grow_and_shrink_without_losing_peak_usage() {
    let mut memory = QueryMemory::new(100);
    let mut reservation = memory.try_reserve(20).unwrap();

    reservation.try_grow(&mut memory, 50).unwrap();
    assert_eq!(reservation.bytes(), 70);
    assert_eq!(memory.reserved_bytes(), 70);

    reservation.shrink(&mut memory, 30);
    assert_eq!(reservation.bytes(), 40);
    assert_eq!(memory.reserved_bytes(), 40);
    assert_eq!(memory.peak_bytes(), 70);

    reservation.release(&mut memory);
    assert_eq!(memory.reserved_bytes(), 0);
}

#[test]
fn exhaustion_names_what_is_required_and_the_limit() {
    let mut memory = QueryMemory::new(10);
    let mut reservation = memory.try_reserve(4).unwrap();
    let error = reservation.try_grow(&mut memory, 7).unwrap_err();
    assert_eq!(
        error.to_text(),
        "resource exhausted: query requires at least 11 bytes but its limit is 10 bytes"
    );
    assert_eq!(
        memory.try_reserve(u64::MAX).unwrap_err().to_text(),
        "resource exhausted: query memory reservation overflowed"
    );
    assert_eq!(reservation.bytes(), 4);
    assert_eq!(QueryMemory::new(0).limit_bytes(), 1);
}

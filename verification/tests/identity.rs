use queue_processor::identity::{
    clock_result, current_time_ms, ClockError, ExecutionId, KSUID_EPOCH,
};
use svix_ksuid::{Ksuid, KsuidLike};

fn documented_bytes() -> [u8; 20] {
    let mut bytes = [0u8; 20];
    bytes[..4].copy_from_slice(&1643290698u32.to_be_bytes());
    bytes[4..].copy_from_slice(&45419194335837378647185401984346151808u128.to_be_bytes());
    bytes
}

#[test]
fn seconds_count_from_the_ksuid_epoch() {
    assert_eq!(KSUID_EPOCH, 1_400_000_000);
    assert_eq!(ExecutionId::from_bytes([0u8; 20]).timestamp_seconds(), 1_400_000_000);
    let mut bytes = [0u8; 20];
    bytes[0] = 0x01;
    bytes[1] = 0x02;
    bytes[2] = 0x03;
    bytes[3] = 0x04;
    bytes[4] = 0xff;
    let id = ExecutionId::from_bytes(bytes);
    assert_eq!(id.timestamp_seconds(), 1_400_000_000 + 0x01020304);
    assert_eq!(id.bytes(), bytes);
    let last = ExecutionId::from_bytes([0xffu8; 20]);
    assert_eq!(last.timestamp_seconds(), 1_400_000_000 + 0xffff_ffffi64);
}

#[test]
fn text_is_the_base62_of_the_bytes() {
    let id = ExecutionId::from_bytes(documented_bytes());
    assert_eq!(id.to_base62(), "DyU8bFOBPZ4LjvsfN0qywt2LjmK");
    assert_eq!(id.timestamp_seconds(), 1643290698 + 1_400_000_000);
    assert_eq!(ExecutionId::from_bytes([0u8; 20]).to_base62(), "000000000000000000000000000");
    assert_eq!(ExecutionId::from_bytes([0xffu8; 20]).to_base62(), "aWgEPTl1tmebfsQzFP4bxwgy80V");
}

#[test]
fn agrees_with_the_ksuid_crate() {
    let k = Ksuid::from_seconds(Some(1_700_000_000), Some(&[7u8; 16]));
    let id = ExecutionId::from_bytes(*k.bytes());
    assert_eq!(id.timestamp_seconds(), 1_700_000_000);
    assert_eq!(id.timestamp_seconds(), k.timestamp_seconds());
    assert_eq!(id.to_base62(), k.to_base62());
    assert_eq!(id.to_base62().len(), 27);
}

#[test]
fn generated_identifiers_are_fresh() {
    let a = ExecutionId::generate();
    let b = ExecutionId::generate();
    assert_ne!(a, b);
    assert_ne!(a.to_base62(), b.to_base62());
    assert!(a.timestamp_seconds() > 1_600_000_000);
    assert!(b.timestamp_seconds() >= a.timestamp_seconds());
    assert!(b.timestamp_seconds() - a.timestamp_seconds() <= 5);
    let ms = current_time_ms().unwrap();
    let seconds = (ms / 1000) as i64;
    assert!((seconds - a.timestamp_seconds()).abs() <= 5);
}

#[test]
fn the_clock_moves_forward() {
    let first = current_time_ms().unwrap();
    let second = current_time_ms().unwrap();
    assert!(first > 1_600_000_000_000);
    assert!(second >= first);
}

#[test]
fn a_reading_before_the_epoch_is_an_error() {
    assert_eq!(clock_result(Some(1_700_000_000_123)), Ok(1_700_000_000_123));
    assert_eq!(clock_result(Some(0)), Ok(0));
    assert_eq!(clock_result(Some(u128::MAX)), Ok(u128::MAX));
    assert_eq!(clock_result(None), Err(ClockError::BeforeEpoch));
}

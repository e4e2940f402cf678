use netflow_agg::cache::{cache_data, AggregationCache};
use netflow_agg::classify::{classify, get_netflow_type, Direction};
use netflow_agg::counters::{FlowCount, Role};
use netflow_agg::date::Date;
use netflow_agg::key::AggregationKey;
use netflow_agg::netflow::NetflowV4;
use netflow_agg::pattern::{Pattern, CAMPUS_ADDRESS_PATTERN};
use netflow_agg::record::{credits_of, RecordError};

fn flow(first: &str, bytes: u64, src: &str, dst: &str) -> NetflowV4 {
    NetflowV4 {
        first: first.to_string(),
        last: first.to_string(),
        in_packets: 1,
        in_bytes: bytes,
        src4_addr: src.to_string(),
        dst4_addr: dst.to_string(),
    }
}

fn key(address: u32, hour: u8) -> AggregationKey {
    AggregationKey::new(address, Date::new(2024, 5, 1).unwrap(), hour).unwrap()
}

#[test]
fn classify_covers_the_four_directions() {
    assert_eq!(classify(false, true), Direction::ExternalInbound);
    assert_eq!(classify(true, false), Direction::ExternalOutbound);
    assert_eq!(classify(true, true), Direction::InternalBoth);
    assert_eq!(classify(false, false), Direction::Unclassified);
}

#[test]
fn direction_codes_round_trip() {
    assert_eq!(Direction::ExternalInbound.code(), 1);
    assert_eq!(Direction::ExternalOutbound.code(), 2);
    assert_eq!(Direction::InternalBoth.code(), 3);
    assert_eq!(Direction::Unclassified.code(), 4);
    assert_eq!(Direction::from_code(1), Direction::ExternalInbound);
    assert_eq!(Direction::from_code(2), Direction::ExternalOutbound);
    assert_eq!(Direction::from_code(3), Direction::InternalBoth);
    assert_eq!(Direction::from_code(4), Direction::Unclassified);
    assert_eq!(Direction::from_code(0), Direction::Unclassified);
    assert_eq!(Direction::from_code(200), Direction::Unclassified);
}

#[test]
fn flow_type_follows_the_inside_pattern() {
    let inside = Pattern::new(CAMPUS_ADDRESS_PATTERN).unwrap();
    let stamp = "2024-05-01T10:15:00";
    assert_eq!(get_netflow_type(&flow(stamp, 1, "8.8.8.8", "140.125.1.2"), &inside), 1);
    assert_eq!(get_netflow_type(&flow(stamp, 1, "140.125.1.2", "8.8.8.8"), &inside), 2);
    assert_eq!(get_netflow_type(&flow(stamp, 1, "140.125.1.2", "140.125.200.7"), &inside), 3);
    assert_eq!(get_netflow_type(&flow(stamp, 1, "8.8.8.8", "1.1.1.1"), &inside), 4);
    // The pattern is anchored at the start of the address.
    assert_eq!(get_netflow_type(&flow(stamp, 1, "1.140.125.1", "8.8.8.8"), &inside), 4);
    let other = Pattern::new(r"^10\.").unwrap();
    assert_eq!(get_netflow_type(&flow(stamp, 1, "10.0.0.1", "140.125.1.2"), &other), 2);
}

#[test]
fn outbound_record_counts_for_its_source() {
    let mut cache = AggregationCache::new();
    let record = flow("2024-05-01T23:59:59", 77, "140.125.1.2", "8.8.8.8");
    assert_eq!(cache_data(&record, 2, &mut cache), Ok(()));
    assert_eq!(cache.len(), 1);
    let count = cache.get(&key(0x8c7d0102, 23)).unwrap();
    assert_eq!(count.external_out(), 77);
    assert_eq!(count.external_in(), 0);
    assert!(cache.get(&key(0x08080808, 23)).is_none());
}

#[test]
fn internal_record_between_one_address_and_itself() {
    let mut cache = AggregationCache::new();
    let record = flow("2024-05-01T00:00:00", 9, "140.125.1.2", "140.125.1.2");
    assert_eq!(cache_data(&record, 3, &mut cache), Ok(()));
    assert_eq!(cache.len(), 1);
    let count = cache.get(&key(0x8c7d0102, 0)).unwrap();
    assert_eq!((count.internal_in(), count.internal_out()), (9, 9));
}

#[test]
fn unclassified_record_is_passed_over() {
    let mut cache = AggregationCache::new();
    let record = flow("no timestamp", u64::MAX, "nowhere", "nowhere");
    assert_eq!(cache_data(&record, 4, &mut cache), Ok(()));
    assert_eq!(cache_data(&record, 0, &mut cache), Ok(()));
    assert_eq!(cache_data(&record, 255, &mut cache), Ok(()));
    assert_eq!(cache.len(), 0);
}

#[test]
fn record_without_a_day_and_hour_is_refused() {
    let mut cache = AggregationCache::new();
    for stamp in [
        "",
        "2024-05-01",
        "2024-05-01 10:15:00",
        "2024-05-01T",
        "2024-05-01T24:00:00",
        "2024-05-01Tten:00:00",
        "2024-02-30T10:00:00",
        "T10:00:00",
        "2024-05-01T-1:00:00",
    ] {
        let record = flow(stamp, 1, "8.8.8.8", "140.125.1.2");
        assert_eq!(cache_data(&record, 1, &mut cache), Err(RecordError::Timestamp), "{}", stamp);
    }
    assert_eq!(cache.len(), 0);
}

#[test]
fn byte_count_above_the_signed_range_is_refused() {
    let mut cache = AggregationCache::new();
    let most = flow("2024-05-01T10:00:00", i64::MAX as u64, "8.8.8.8", "140.125.1.2");
    let more = flow("2024-05-01T10:00:00", i64::MAX as u64 + 1, "8.8.8.8", "140.125.1.3");
    assert_eq!(cache_data(&more, 1, &mut cache), Err(RecordError::ByteCount));
    assert_eq!(cache.len(), 0);
    assert_eq!(cache_data(&most, 1, &mut cache), Ok(()));
    assert_eq!(cache.get(&key(0x8c7d0102, 10)).unwrap().external_in(), i64::MAX);
}

#[test]
fn record_with_a_malformed_address_is_refused() {
    let mut cache = AggregationCache::new();
    let stamp = "2024-05-01T10:00:00";
    assert_eq!(
        cache_data(&flow(stamp, 1, "8.8.8.8", "140.125.1"), 1, &mut cache),
        Err(RecordError::Address)
    );
    assert_eq!(
        cache_data(&flow(stamp, 1, "140.125.1.256", "8.8.8.8"), 2, &mut cache),
        Err(RecordError::Address)
    );
    // An internal flow needs both addresses; nothing is counted for the good one.
    assert_eq!(
        cache_data(&flow(stamp, 1, "140.125.01.2", "140.125.1.2"), 3, &mut cache),
        Err(RecordError::Address)
    );
    assert_eq!(cache.len(), 0);
    // Only the address that is counted under has to be well formed.
    assert_eq!(cache_data(&flow(stamp, 1, "somewhere", "140.125.1.2"), 1, &mut cache), Ok(()));
    assert_eq!(cache.len(), 1);
}

#[test]
fn counter_overflow_refuses_the_record_and_keeps_the_cache() {
    let mut cache = AggregationCache::new();
    let stamp = "2024-05-01T10:00:00";
    let most = flow(stamp, i64::MAX as u64, "8.8.8.8", "140.125.1.2");
    let one = flow(stamp, 1, "8.8.8.8", "140.125.1.2");
    let none = flow(stamp, 0, "8.8.8.8", "140.125.1.2");
    assert_eq!(cache_data(&most, 1, &mut cache), Ok(()));
    assert_eq!(cache_data(&one, 1, &mut cache), Err(RecordError::CounterOverflow));
    assert_eq!(cache_data(&none, 1, &mut cache), Ok(()));
    assert_eq!(cache.len(), 1);
    assert_eq!(cache.get(&key(0x8c7d0102, 10)).unwrap().external_in(), i64::MAX);
    // The other counters of the key still have room.
    let out = flow(stamp, 5, "140.125.1.2", "8.8.8.8");
    assert_eq!(cache_data(&out, 2, &mut cache), Ok(()));
    assert_eq!(cache.get(&key(0x8c7d0102, 10)).unwrap().external_out(), 5);
}

#[test]
fn internal_record_is_counted_on_both_sides_or_on_neither() {
    let mut cache = AggregationCache::new();
    let stamp = "2024-05-01T10:00:00";
    // Fill internal-out of the source-to-be.
    let fill = flow(stamp, i64::MAX as u64, "140.125.1.2", "140.125.9.9");
    assert_eq!(cache_data(&fill, 3, &mut cache), Ok(()));
    let before_dst = cache.get(&key(0x8c7d0303, 10));
    assert!(before_dst.is_none());
    let record = flow(stamp, 1, "140.125.1.2", "140.125.3.3");
    assert_eq!(cache_data(&record, 3, &mut cache), Err(RecordError::CounterOverflow));
    assert!(cache.get(&key(0x8c7d0303, 10)).is_none());
    assert_eq!(cache.len(), 2);
}

#[test]
fn credits_of_an_internal_record() {
    let record = flow("2024-05-01T07:08:09", 42, "140.125.1.2", "140.125.3.4");
    let credits = credits_of(&record, 3).unwrap();
    assert_eq!(credits.len(), 2);
    assert_eq!(credits[0].key, key(0x8c7d0304, 7));
    assert_eq!(credits[0].role, Role::InternalIn);
    assert_eq!(credits[0].bytes, 42);
    assert_eq!(credits[1].key, key(0x8c7d0102, 7));
    assert_eq!(credits[1].role, Role::InternalOut);
    assert_eq!(credits[1].bytes, 42);
    assert!(credits_of(&record, 9).unwrap().is_empty());
}

#[test]
fn accumulator_adds_and_refuses_overflow() {
    let zero = FlowCount::default();
    assert_eq!(zero.external_in(), 0);
    assert_eq!(zero.external_out(), 0);
    assert_eq!(zero.internal_in(), 0);
    assert_eq!(zero.internal_out(), 0);
    let some = zero.add_bytes(Role::InternalOut, 12).unwrap();
    assert_eq!(some.internal_out(), 12);
    assert_eq!(some.get(Role::InternalOut), 12);
    assert_eq!(some.get(Role::InternalIn), 0);
    let full = some.add_bytes(Role::InternalOut, i64::MAX as u64 - 12).unwrap();
    assert_eq!(full.internal_out(), i64::MAX);
    assert!(full.add_bytes(Role::InternalOut, 1).is_none());
    assert!(zero.add_bytes(Role::ExternalIn, u64::MAX).is_none());
    assert_eq!(full.add_bytes(Role::ExternalIn, 3).unwrap().external_in(), 3);
}

#[test]
fn keys_keep_the_order_of_first_counting() {
    let mut cache = AggregationCache::new();
    let stamp = "2024-05-01T10:00:00";
    for last in [5u32, 3, 9, 3, 5] {
        let record = flow(stamp, 1, "8.8.8.8", &format!("140.125.0.{}", last));
        assert_eq!(cache_data(&record, 1, &mut cache), Ok(()));
    }
    assert_eq!(cache.len(), 3);
    let order: Vec<u32> = (0..3).map(|i| cache.entry(i).unwrap().0.address() & 0xff).collect();
    assert_eq!(order, vec![5, 3, 9]);
    assert!(cache.entry(3).is_none());
    assert_eq!(cache.entry(0).unwrap().1.external_in(), 2);
    assert_eq!(cache.entry(2).unwrap().1.external_in(), 1);
}

#[test]
fn error_messages() {
    assert_eq!(RecordError::Timestamp.message(), "first-seen timestamp names no day and hour");
    assert_eq!(RecordError::ByteCount.message(), "byte count above the signed 64-bit range");
    assert_eq!(RecordError::Address.message(), "address is no dotted quad");
    assert_eq!(
        RecordError::CounterOverflow.message(),
        "counter would leave the signed 64-bit range"
    );
}

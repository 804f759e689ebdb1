use std::collections::HashSet;
use std::sync::{Arc, Mutex};

use vantus::id::{format_id, AtomicIdGenerator, IdGenerator, UuidIdGenerator};

#[test]
fn atomic_generator_returns_distinct_prefixed_ids() {
    let generator = AtomicIdGenerator::with_prefix("order");
    let first = generator.next_id();
    let second = generator.next_id();

    assert_ne!(first, second);
    assert!(first.starts_with("order-"), "{first}");
    assert!(second.starts_with("order-"), "{second}");
}

#[test]
fn uuid_generator_returns_parseable_distinct_ids() {
    let generator = UuidIdGenerator;
    let first = generator.next_id();
    let second = generator.next_id();

    assert_ne!(first, second);
    assert!(uuid::Uuid::parse_str(&first).is_ok(), "{first}");
    assert!(uuid::Uuid::parse_str(&second).is_ok(), "{second}");
}

#[test]
fn atomic_generator_is_collision_free_under_concurrency() {
    let generator = Arc::new(AtomicIdGenerator::with_prefix("concurrent"));
    let values = Arc::new(Mutex::new(Vec::new()));

    for _ in 0..8 {
        let generator = Arc::clone(&generator);
        let values = Arc::clone(&values);
        for _ in 0..32 {
            values.lock().unwrap().push(generator.next_id());
        }
    }

    let values = values.lock().unwrap();
    let unique = values.iter().cloned().collect::<HashSet<_>>();
    assert_eq!(values.len(), unique.len());
}

#[test]
fn atomic_ids_count_from_one() {
    let generator = AtomicIdGenerator::new();
    assert_eq!(generator.next_id(), "id-1");
    assert_eq!(generator.next_id(), "id-2");
    assert_eq!(AtomicIdGenerator::default().next_id(), "id-1");
}

#[test]
fn ids_are_formatted_from_prefix_and_number() {
    assert_eq!(format_id("job", 0), "job-0");
    assert_eq!(format_id("job", 18446744073709551615), "job-18446744073709551615");
}

#[test]
fn uuid_ids_are_version_four() {
    let id = UuidIdGenerator.next_id();
    assert_eq!(id.len(), 36);
    assert_eq!(id.as_bytes()[14], b'4');
}

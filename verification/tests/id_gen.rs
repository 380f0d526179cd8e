use agent_memory::id_gen::{
    Counter, IdGenerationStrategy, MemoryIdGenerator, MemoryIdGeneratorBuilder, UuidV4Generator,
};

#[test]
fn test_id_gen_works() {
    let mut generator = MemoryIdGenerator::new();
    let id = generator.generate_id();

    assert_eq!("mem-000000001", &id);

    let id = generator.generate_id();

    assert_eq!("mem-000000002", &id);
}

#[test]
fn counter_starts_at_one_and_advances() {
    let mut counter = Counter::new();
    assert_eq!(counter.get_id(), 1);
    assert_eq!(counter.get_id(), 2);
    assert_eq!(counter.get_id(), 3);
}

#[test]
fn counter_from_number() {
    let mut counter = Counter::from_number(41);
    assert_eq!(counter.get_id(), 41);
    assert_eq!(counter.get_id(), 42);
}

#[test]
fn counter_strategy_renders_decimal() {
    let mut counter = Counter::from_number(1234567890123);
    let id = counter.generate_id();
    assert_eq!(id, "1234567890123");
}

#[test]
fn builder_prefix_and_counter() {
    let mut generator = MemoryIdGeneratorBuilder::new()
        .prefix("doc")
        .counter(Counter::from_number(7))
        .build();
    assert_eq!(generator.generate_id(), "doc-000000007");
    assert_eq!(generator.generate_id(), "doc-000000008");
}

#[test]
fn builder_defaults_match_new() {
    let mut generator = MemoryIdGenerator::builder().build();
    assert_eq!(generator.generate_id(), "mem-000000001");
}

#[test]
fn wide_numbers_are_not_truncated() {
    let mut generator = MemoryIdGeneratorBuilder::new()
        .counter(Counter::from_number(1_234_567_890))
        .build();
    assert_eq!(generator.generate_id(), "mem-1234567890");
}

#[test]
fn nine_digit_boundary() {
    let mut generator = MemoryIdGeneratorBuilder::new()
        .counter(Counter::from_number(100_000_000))
        .build();
    assert_eq!(generator.generate_id(), "mem-100000000");
}

#[test]
fn uuid_generator_shape() {
    let mut generator = UuidV4Generator;
    let a = generator.generate_id();
    let b = generator.generate_id();
    assert_eq!(a.len(), 36);
    assert_eq!(b.len(), 36);
    assert_eq!(a.chars().filter(|c| *c == '-').count(), 4);
    assert_ne!(a, b);
}

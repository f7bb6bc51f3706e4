use bitfield::enum_spec::{EnumSpec, Variant};
use bitfield::error::DecodeError;
use bitfield::layout::{FieldLayout, FieldSpec};
use bitfield::schema::{SchemaInstance, Value};
use bitfield::width::WidthSpec;

fn variant(name: &str, discriminant: u64) -> Variant {
    Variant::new(name, discriminant)
}

fn plain(name: &str, bits: usize) -> FieldSpec {
    FieldSpec::plain(name, WidthSpec::new(bits).unwrap())
}

fn enumerated(name: &str, variants: Vec<Variant>) -> FieldSpec {
    FieldSpec::enumerated(name, EnumSpec::new(variants).unwrap())
}

fn redirection_layout() -> FieldLayout {
    FieldLayout::new(vec![
        plain("acknowledged", 1),
        enumerated("trigger_mode", vec![variant("Edge", 0), variant("Level", 1)]),
        enumerated(
            "delivery_mode",
            vec![
                variant("Fixed", 0b000),
                variant("Lowest", 0b001),
                variant("SMI", 0b010),
                variant("RemoteRead", 0b011),
                variant("NMI", 0b100),
                variant("Init", 0b101),
                variant("Startup", 0b110),
                variant("External", 0b111),
            ],
        ),
        plain("reserved", 3),
    ])
    .unwrap()
}

fn mixed_layout() -> FieldLayout {
    FieldLayout::new(vec![
        plain("a", 1),
        plain("b", 3),
        plain("c", 4),
        plain("d", 24),
        plain("e", 7),
        plain("f", 64),
        plain("g", 9),
        plain("h", 33),
        plain("i", 15),
    ])
    .unwrap()
}

fn largest(bits: usize) -> u64 {
    if bits == 64 {
        u64::MAX
    } else {
        (1u64 << bits) - 1
    }
}

#[test]
fn redirection_entry_is_one_byte_and_starts_at_zero() {
    let layout = redirection_layout();
    assert_eq!(layout.total_bytes(), 1);
    let entry = SchemaInstance::new(&layout);
    assert_eq!(entry.as_bytes(), &[0u8]);
    assert_eq!(entry.get(0), Ok(Value::Raw(0)));
    assert_eq!(entry.get(1), Ok(Value::Name("Edge")));
    assert_eq!(entry.get(2), Ok(Value::Name("Fixed")));
    assert_eq!(entry.get(3), Ok(Value::Raw(0)));
}

#[test]
fn redirection_entry_after_two_writes() {
    let layout = redirection_layout();
    let mut entry = SchemaInstance::new(&layout);
    entry.set(0, Value::Raw(1));
    entry.set(2, Value::Name("SMI"));
    assert_eq!(entry.as_bytes(), &[0b1_0_010_000u8]);
    assert_eq!(entry.get(0), Ok(Value::Raw(1)));
    assert_eq!(entry.get(1), Ok(Value::Name("Edge")));
    assert_eq!(entry.get(2), Ok(Value::Name("SMI")));
    assert_eq!(entry.get(3), Ok(Value::Raw(0)));
}

#[test]
fn schema_of_an_instance_is_the_one_it_was_made_of() {
    let layout = redirection_layout();
    let entry = SchemaInstance::new(&layout);
    assert_eq!(entry.schema(), &layout);
}

#[test]
fn four_byte_structure() {
    let layout = FieldLayout::new(vec![plain("a", 1), plain("b", 3), plain("c", 4), plain("d", 24)])
        .unwrap();
    assert_eq!(layout.total_bytes(), 4);
    let mut x = SchemaInstance::new(&layout);
    assert_eq!(x.as_bytes(), &[0u8; 4]);
    x.set_raw(0, 1);
    x.set_raw(1, 1);
    x.set_raw(2, 1);
    x.set_raw(3, 1);
    assert_eq!(x.as_bytes(), &[0b1_001_0001, 0, 0, 1]);
    assert_eq!(x.get_raw(0), 1);
    assert_eq!(x.get_raw(1), 1);
    assert_eq!(x.get_raw(2), 1);
    assert_eq!(x.get_raw(3), 1);
}

#[test]
fn first_field_holds_the_highest_bits_of_byte_zero() {
    let layout = FieldLayout::new(vec![plain("a", 3), plain("b", 13)]).unwrap();
    let mut x = SchemaInstance::new(&layout);
    x.set_raw(0, 0b101);
    assert_eq!(x.as_bytes(), &[0b1010_0000, 0]);
    x.set_raw(1, 0b1_0000_0000_0011);
    assert_eq!(x.as_bytes(), &[0b1011_0000, 0b0000_0011]);
}

#[test]
fn fresh_instance_reads_zero_in_every_field() {
    let layout = mixed_layout();
    let x = SchemaInstance::new(&layout);
    for field in 0..layout.len() {
        assert_eq!(x.get_raw(field), 0);
        assert_eq!(x.get(field), Ok(Value::Raw(0)));
    }
    assert!(x.as_bytes().iter().all(|b| *b == 0));
}

#[test]
fn fresh_enumerated_field_reads_the_name_of_zero() {
    let layout = FieldLayout::new(vec![
        enumerated("m", vec![variant("One", 1), variant("Zero", 0), variant("Three", 3), variant("Two", 2)]),
        plain("rest", 6),
    ])
    .unwrap();
    let x = SchemaInstance::new(&layout);
    assert_eq!(x.get(0), Ok(Value::Name("Zero")));
}

#[test]
fn what_is_written_is_read_back() {
    let layout = mixed_layout();
    for field in 0..layout.len() {
        let bits = layout.bits(field);
        for raw in [0u64, 1, largest(bits), largest(bits) / 3, 0x0123_4567_89ab_cdef & largest(bits)] {
            let mut x = SchemaInstance::new(&layout);
            x.set_raw(field, raw);
            assert_eq!(x.get_raw(field), raw, "field {field} raw {raw:#x}");
            assert_eq!(x.get(field), Ok(Value::Raw(raw)));
        }
    }
}

#[test]
fn every_small_value_of_every_small_field_is_read_back() {
    let layout = FieldLayout::new(vec![plain("a", 1), plain("b", 3), plain("c", 4), plain("d", 7), plain("e", 9)])
        .unwrap();
    for field in 0..layout.len() {
        for raw in 0..=largest(layout.bits(field)) {
            let mut x = SchemaInstance::new(&layout);
            x.set_raw(field, raw);
            assert_eq!(x.get_raw(field), raw);
        }
    }
}

#[test]
fn writing_a_field_leaves_the_others_as_they_were() {
    let layout = mixed_layout();
    let count = layout.len();
    let mut x = SchemaInstance::new(&layout);
    let mut held: Vec<u64> = vec![0; count];
    for round in 0..3u64 {
        for field in 0..count {
            let raw = (0x9e37_79b9_7f4a_7c15u64.rotate_left((field as u32) * 7 + round as u32))
                & largest(layout.bits(field));
            x.set_raw(field, raw);
            held[field] = raw;
            for other in 0..count {
                assert_eq!(x.get_raw(other), held[other], "wrote {field}, read {other}");
            }
        }
    }
}

#[test]
fn neighbours_in_one_byte_do_not_disturb_each_other() {
    let layout = redirection_layout();
    let mut entry = SchemaInstance::new(&layout);
    entry.set_raw(3, 0b111);
    entry.set(1, Value::Name("Level"));
    assert_eq!(entry.as_bytes(), &[0b0_1_000_111u8]);
    entry.set(2, Value::Name("External"));
    assert_eq!(entry.as_bytes(), &[0b0_1_111_111u8]);
    entry.set(2, Value::Name("Fixed"));
    assert_eq!(entry.as_bytes(), &[0b0_1_000_111u8]);
    assert_eq!(entry.get(0), Ok(Value::Raw(0)));
    assert_eq!(entry.get(1), Ok(Value::Name("Level")));
    assert_eq!(entry.get(3), Ok(Value::Raw(0b111)));
}

#[test]
fn only_the_low_bits_of_a_value_are_kept() {
    let layout = FieldLayout::new(vec![plain("a", 3), plain("b", 5)]).unwrap();
    let mut x = SchemaInstance::new(&layout);
    x.set_raw(0, 0b1111_1010);
    assert_eq!(x.get_raw(0), 0b010);
    assert_eq!(x.get_raw(1), 0);
    x.set(1, Value::Raw(u64::MAX));
    assert_eq!(x.get_raw(1), 0b1_1111);
    assert_eq!(x.get_raw(0), 0b010);
}

#[test]
fn names_are_written_as_their_discriminants() {
    let layout = FieldLayout::new(vec![
        plain("pad", 6),
        enumerated("m", vec![variant("A", 2), variant("B", 0), variant("C", 3), variant("D", 1)]),
    ])
    .unwrap();
    let mut x = SchemaInstance::new(&layout);
    x.set(1, Value::Name("A"));
    assert_eq!(x.get_raw(1), 2);
    assert_eq!(x.as_bytes(), &[0b0000_0010]);
    assert_eq!(x.get(1), Ok(Value::Name("A")));
    x.set(1, Value::Name("C"));
    assert_eq!(x.get_raw(1), 3);
    assert_eq!(x.get(1), Ok(Value::Name("C")));
}

#[test]
fn bits_that_stand_for_no_variant_are_refused() {
    let layout = FieldLayout::new(vec![
        enumerated("m", vec![variant("A", 0), variant("B", 0), variant("C", 1), variant("D", 1)]),
        plain("rest", 6),
    ])
    .unwrap();
    let mut x = SchemaInstance::new(&layout);
    assert_eq!(x.get(0), Ok(Value::Name("A")));
    x.set_raw(0, 1);
    assert_eq!(x.get(0), Ok(Value::Name("C")));
    x.set_raw(0, 2);
    assert_eq!(x.get(0), Err(DecodeError { raw: 2 }));
    x.set_raw(0, 3);
    assert_eq!(x.get(0), Err(DecodeError { raw: 3 }));
    assert_eq!(x.get(1), Ok(Value::Raw(0)));
}

#[test]
fn field_of_a_single_variant_takes_no_bits() {
    let layout = FieldLayout::new(vec![plain("a", 4), enumerated("only", vec![variant("Only", 0)]), plain("b", 4)])
        .unwrap();
    let mut x = SchemaInstance::new(&layout);
    x.set_raw(0, 0xf);
    x.set_raw(2, 0x5);
    assert_eq!(x.get(1), Ok(Value::Name("Only")));
    x.set(1, Value::Name("Only"));
    x.set_raw(1, 1);
    assert_eq!(x.get_raw(1), 0);
    assert_eq!(x.as_bytes(), &[0xf5]);
}

#[test]
fn sixty_four_bit_field_that_starts_inside_a_byte() {
    let layout = FieldLayout::new(vec![plain("a", 1), plain("wide", 64), plain("b", 7)]).unwrap();
    assert_eq!(layout.total_bytes(), 9);
    let mut x = SchemaInstance::new(&layout);
    x.set_raw(1, 0x0123_4567_89ab_cdef);
    assert_eq!(x.get_raw(1), 0x0123_4567_89ab_cdef);
    assert_eq!(x.get_raw(0), 0);
    assert_eq!(x.get_raw(2), 0);
    assert_eq!(x.as_bytes(), &[0x00, 0x91, 0xa2, 0xb3, 0xc4, 0xd5, 0xe6, 0xf7, 0x80]);
    x.set_raw(0, 1);
    x.set_raw(2, 0x7f);
    assert_eq!(x.get_raw(1), 0x0123_4567_89ab_cdef);
}

#[test]
fn one_bit_before_a_byte_boundary_leaves_the_next_byte_alone() {
    let layout = FieldLayout::new(vec![plain("low", 7), plain("bit", 1), plain("next", 8)]).unwrap();
    assert_eq!(layout.offset(1), 7);
    let mut x = SchemaInstance::new(&layout);
    x.set_raw(2, 0b1010_1010);
    x.set_raw(1, 1);
    assert_eq!(x.as_bytes(), &[0b0000_0001, 0b1010_1010]);
    assert_eq!(x.get_raw(1), 1);
    assert_eq!(x.get_raw(2), 0b1010_1010);
    x.set_raw(0, 0x7f);
    x.set_raw(1, 0);
    assert_eq!(x.as_bytes(), &[0b1111_1110, 0b1010_1010]);
    assert_eq!(x.get_raw(1), 0);
}

#[test]
fn can_set_tells_what_set_takes() {
    let layout = FieldLayout::new(vec![
        plain("n", 6),
        enumerated("m", vec![variant("A", 0), variant("B", 1), variant("C", 2), variant("D", 3)]),
    ])
    .unwrap();
    let x = SchemaInstance::new(&layout);
    assert!(x.can_set(0, Value::Raw(5)));
    assert!(x.can_set(0, Value::Raw(u64::MAX)));
    assert!(x.can_set(1, Value::Raw(2)));
    assert!(x.can_set(1, Value::Name("C")));
    assert!(!x.can_set(1, Value::Name("E")));
    assert!(!x.can_set(1, Value::Name("c")));
    assert!(!x.can_set(0, Value::Name("A")));
    assert!(!x.can_set(2, Value::Raw(0)));
    assert!(!x.can_set(usize::MAX, Value::Name("A")));
}

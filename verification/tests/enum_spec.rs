use bitfield::enum_spec::{EnumSpec, Variant};
use bitfield::error::{DecodeError, SchemaError};
use bitfield::Specifier;

fn variant(name: &str, discriminant: u64) -> Variant {
    Variant::new(name, discriminant)
}

fn numbered(count: usize) -> Vec<Variant> {
    (0..count).map(|i| variant(&format!("V{i}"), i as u64)).collect()
}

fn delivery_modes() -> EnumSpec {
    EnumSpec::new(vec![
        variant("Fixed", 0b000),
        variant("Lowest", 0b001),
        variant("SMI", 0b010),
        variant("RemoteRead", 0b011),
        variant("NMI", 0b100),
        variant("Init", 0b101),
        variant("Startup", 0b110),
        variant("External", 0b111),
    ])
    .unwrap()
}

#[test]
fn width_is_the_logarithm_of_the_variant_count() {
    assert_eq!(EnumSpec::new(numbered(1)).unwrap().bits(), 0);
    assert_eq!(EnumSpec::new(numbered(2)).unwrap().bits(), 1);
    assert_eq!(EnumSpec::new(numbered(4)).unwrap().bits(), 2);
    assert_eq!(EnumSpec::new(numbered(8)).unwrap().bits(), 3);
    assert_eq!(EnumSpec::new(numbered(256)).unwrap().bits(), 8);
    assert_eq!(EnumSpec::new(numbered(512)).unwrap().bits(), 9);
    assert_eq!(EnumSpec::new(numbered(512)).unwrap().storage_width(), 16);
}

#[test]
fn variant_count_must_be_a_power_of_two() {
    for count in [0usize, 3, 5, 6, 7, 9, 12, 100, 255, 257] {
        assert_eq!(
            EnumSpec::new(numbered(count)),
            Err(SchemaError::VariantCountNotPowerOfTwo { count }),
            "count {count}"
        );
    }
}

#[test]
fn discriminants_must_fit_the_width() {
    let made = EnumSpec::new(vec![variant("A", 0), variant("B", 2)]);
    assert_eq!(made, Err(SchemaError::DiscriminantOutOfRange { variant: 1 }));
    let made = EnumSpec::new(vec![variant("A", 4), variant("B", 1), variant("C", 9), variant("D", 0)]);
    assert_eq!(made, Err(SchemaError::DiscriminantOutOfRange { variant: 0 }));
    let made = EnumSpec::new(vec![variant("A", 3), variant("B", 1), variant("C", 9), variant("D", 4)]);
    assert_eq!(made, Err(SchemaError::DiscriminantOutOfRange { variant: 2 }));
    let made = EnumSpec::new(vec![variant("Only", 1)]);
    assert_eq!(made, Err(SchemaError::DiscriminantOutOfRange { variant: 0 }));
    let made = EnumSpec::new(vec![variant("A", 0), variant("B", u64::MAX)]);
    assert_eq!(made, Err(SchemaError::DiscriminantOutOfRange { variant: 1 }));
}

#[test]
fn the_count_is_checked_before_the_discriminants() {
    let made = EnumSpec::new(vec![variant("A", 0), variant("B", 100), variant("C", 1)]);
    assert_eq!(made, Err(SchemaError::VariantCountNotPowerOfTwo { count: 3 }));
}

#[test]
fn largest_discriminant_is_accepted() {
    let spec = EnumSpec::new(vec![variant("A", 3), variant("B", 2), variant("C", 1), variant("D", 0)])
        .unwrap();
    assert_eq!(spec.decode(3), Ok("A"));
    assert_eq!(spec.decode(0), Ok("D"));
}

#[test]
fn variants_are_kept_in_order() {
    let spec = delivery_modes();
    assert_eq!(spec.len(), 8);
    assert_eq!(spec.variant(0), &variant("Fixed", 0));
    assert_eq!(spec.variant(2), &variant("SMI", 2));
    assert_eq!(spec.variant(7), &variant("External", 7));
}

#[test]
fn decode_finds_the_name_of_a_discriminant() {
    let spec = delivery_modes();
    assert_eq!(spec.decode(0), Ok("Fixed"));
    assert_eq!(spec.decode(0b010), Ok("SMI"));
    assert_eq!(spec.decode(0b111), Ok("External"));
}

#[test]
fn decode_refuses_what_is_no_discriminant() {
    let spec = delivery_modes();
    assert_eq!(spec.decode(8), Err(DecodeError { raw: 8 }));
    assert_eq!(spec.decode(u64::MAX), Err(DecodeError { raw: u64::MAX }));
    // Two variants may share a discriminant: then one value of the field
    // stands for nothing.
    let spec = EnumSpec::new(vec![variant("A", 1), variant("B", 1)]).unwrap();
    assert_eq!(spec.decode(0), Err(DecodeError { raw: 0 }));
    assert_eq!(spec.decode(1), Ok("A"));
}

#[test]
fn encode_finds_the_discriminant_of_a_name() {
    let spec = delivery_modes();
    assert_eq!(spec.encode("Fixed"), Some(0));
    assert_eq!(spec.encode("SMI"), Some(0b010));
    assert_eq!(spec.encode("External"), Some(0b111));
}

#[test]
fn encode_knows_only_the_declared_names() {
    let spec = delivery_modes();
    assert_eq!(spec.encode("Smi"), None);
    assert_eq!(spec.encode(""), None);
    assert_eq!(spec.encode("Fixed "), None);
}

#[test]
fn encode_takes_the_first_variant_of_a_name() {
    let spec = EnumSpec::new(vec![variant("A", 1), variant("A", 0)]).unwrap();
    assert_eq!(spec.encode("A"), Some(1));
}

#[test]
fn every_declared_name_comes_back_from_its_discriminant() {
    let spec = delivery_modes();
    for index in 0..spec.len() {
        let declared = spec.variant(index);
        let raw = spec.encode(&declared.name).unwrap();
        assert_eq!(raw, declared.discriminant);
        assert_eq!(spec.decode(raw), Ok(declared.name.as_str()));
    }
}

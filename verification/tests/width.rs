use bitfield::error::RangeError;
use bitfield::width::{get_set_get_value, WidthSpec};
use bitfield::Specifier;

#[test]
fn get_set_get_value_doubles_from_eight() {
    assert_eq!(get_set_get_value(0), 8);
    assert_eq!(get_set_get_value(1), 8);
    assert_eq!(get_set_get_value(8), 8);
    assert_eq!(get_set_get_value(9), 16);
    assert_eq!(get_set_get_value(16), 16);
    assert_eq!(get_set_get_value(17), 32);
    assert_eq!(get_set_get_value(24), 32);
    assert_eq!(get_set_get_value(32), 32);
    assert_eq!(get_set_get_value(33), 64);
    assert_eq!(get_set_get_value(64), 64);
    assert_eq!(get_set_get_value(65), 128);
    assert_eq!(get_set_get_value(1000), 1024);
}

#[test]
fn width_spec_takes_one_to_sixty_four_bits() {
    for bits in 1..=64usize {
        let width = WidthSpec::new(bits).unwrap();
        assert_eq!(width.bits(), bits);
    }
}

#[test]
fn width_spec_refuses_zero_and_more_than_sixty_four() {
    assert_eq!(WidthSpec::new(0), Err(RangeError::WidthOutOfRange));
    assert_eq!(WidthSpec::new(65), Err(RangeError::WidthOutOfRange));
    assert_eq!(WidthSpec::new(usize::MAX), Err(RangeError::WidthOutOfRange));
}

#[test]
fn storage_width_is_the_smallest_that_holds_the_bits() {
    for bits in 1..=64usize {
        let width = WidthSpec::new(bits).unwrap();
        let expected = if bits <= 8 {
            8
        } else if bits <= 16 {
            16
        } else if bits <= 32 {
            32
        } else {
            64
        };
        assert_eq!(width.storage_width(), expected, "bits {bits}");
        assert!(width.bits() <= width.storage_width());
    }
}

#[test]
fn shift_amount_is_the_padding_above_the_value() {
    assert_eq!(WidthSpec::new(1).unwrap().shift_amount(), 7);
    assert_eq!(WidthSpec::new(3).unwrap().shift_amount(), 5);
    assert_eq!(WidthSpec::new(8).unwrap().shift_amount(), 0);
    assert_eq!(WidthSpec::new(9).unwrap().shift_amount(), 7);
    assert_eq!(WidthSpec::new(17).unwrap().shift_amount(), 15);
    assert_eq!(WidthSpec::new(24).unwrap().shift_amount(), 8);
    assert_eq!(WidthSpec::new(33).unwrap().shift_amount(), 31);
    assert_eq!(WidthSpec::new(64).unwrap().shift_amount(), 0);
}

#[test]
fn occupied_bytes_follow_the_formula() {
    assert_eq!(WidthSpec::new(1).unwrap().occupied_bytes(), 1);
    assert_eq!(WidthSpec::new(8).unwrap().occupied_bytes(), 1);
    assert_eq!(WidthSpec::new(9).unwrap().occupied_bytes(), 2);
    assert_eq!(WidthSpec::new(17).unwrap().occupied_bytes(), 3);
    assert_eq!(WidthSpec::new(24).unwrap().occupied_bytes(), 3);
    assert_eq!(WidthSpec::new(25).unwrap().occupied_bytes(), 4);
    assert_eq!(WidthSpec::new(33).unwrap().occupied_bytes(), 5);
    assert_eq!(WidthSpec::new(64).unwrap().occupied_bytes(), 8);
    for bits in 1..=64usize {
        let width = WidthSpec::new(bits).unwrap();
        let storage = width.storage_width();
        let shift = width.shift_amount();
        assert_eq!(shift, storage - bits);
        assert_eq!(width.occupied_bytes(), storage / 8 - shift / 8);
        assert_eq!(width.occupied_bytes(), (bits + 7) / 8);
    }
}

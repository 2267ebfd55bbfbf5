use raztos_util::collections::fast_bitfield::{
    FastBitField, SmallBitField, SMALL_BIT_FIELD_BIT_SIZE,
};

//
// Constructor Test
//

#[test]
fn small_bitfield_create_defaults_to_empty() {
    let small = SmallBitField::new();
    assert_eq!(small.get_field(), 0);
    assert!(small.is_empty());
}

//
// Trait Tests
//

#[test]
fn small_bitfield_number_of_bits() {
    assert_eq!(
        SmallBitField::get_number_of_bits(),
        SMALL_BIT_FIELD_BIT_SIZE
    );
    assert_eq!(
        SmallBitField::get_number_of_bits(),
        core::mem::size_of::<usize>() * 8
    );
}

#[test]
fn small_bitfield_validate_set_bit() {
    let mut small = SmallBitField::new();
    let mut small_unsafe = SmallBitField::new();
    let mut expected_value: usize = 0;

    for i in 0..SMALL_BIT_FIELD_BIT_SIZE {
        //
        // Out of bounds set should do nothing.
        //

        small.set_bit(SMALL_BIT_FIELD_BIT_SIZE);
        assert_eq!(small.get_field(), expected_value);

        expected_value |= 1 << i;
        small.set_bit(i);
        assert_eq!(small.get_field(), expected_value);

        //
        // Calling set for an already set bit should result in no change.
        //

        small.set_bit(i);
        assert_eq!(small.get_field(), expected_value);

        small_unsafe.set_bit_unchecked(i);
        assert_eq!(small_unsafe.get_field(), expected_value);

        //
        // Calling set for an already set bit should result in no change.
        //

        small_unsafe.set_bit_unchecked(i);
        assert_eq!(small_unsafe.get_field(), expected_value);
    }
}

#[test]
fn small_bitfield_validate_clear_bit() {
    let mut small = SmallBitField::new();
    let mut small_unsafe = SmallBitField::new();
    let mut expected_value = core::usize::MAX;

    small.set_field(core::usize::MAX);
    small_unsafe.set_field(core::usize::MAX);

    for i in 0..SMALL_BIT_FIELD_BIT_SIZE {
        //
        // Out of bounds clear should do nothing.
        //

        small.clear_bit(SMALL_BIT_FIELD_BIT_SIZE);
        assert_eq!(small.get_field(), expected_value);

        expected_value &= !(1 << i);
        small.clear_bit(i);
        assert_eq!(small.get_field(), expected_value);

        //
        // Calling clear for an already cleared bit should result in no change.
        //

        small.clear_bit(i);
        assert_eq!(small.get_field(), expected_value);

        small_unsafe.clear_bit_unchecked(i);
        assert_eq!(small_unsafe.get_field(), expected_value);

        //
        // Calling clear for an already cleared bit should result in no change.
        //

        small_unsafe.clear_bit_unchecked(i);
        assert_eq!(small_unsafe.get_field(), expected_value);
    }
}

#[test]
fn small_bitfield_validate_get_lowest_set_bit() {
    let mut small = SmallBitField::new();

    //
    // Empty should result in None for checked variant
    //

    assert_eq!(small.get_lowest_set_bit(), None);

    for i in 0..SMALL_BIT_FIELD_BIT_SIZE {
        small.set_bit(i);
        assert_eq!(small.get_lowest_set_bit(), Some(0));
        assert_eq!(small.get_lowest_set_bit_unchecked(), 0);
    }

    for i in 0..SMALL_BIT_FIELD_BIT_SIZE {
        assert_eq!(small.get_lowest_set_bit(), Some(i));
        assert_eq!(small.get_lowest_set_bit_unchecked(), i);
        small.clear_bit(i);
    }
}

#[test]
fn small_bitfield_validate_get_highest_set_bit() {
    let mut small = SmallBitField::new();

    //
    // Empty should result in None for checked variant
    //

    assert_eq!(small.get_highest_set_bit(), None);

    for i in 0..SMALL_BIT_FIELD_BIT_SIZE {
        small.set_bit(i);
        assert_eq!(small.get_highest_set_bit(), Some(i));
        assert_eq!(small.get_highest_set_bit_unchecked(), i);
    }

    for i in 0..SMALL_BIT_FIELD_BIT_SIZE {
        assert_eq!(
            small.get_highest_set_bit(),
            Some(SMALL_BIT_FIELD_BIT_SIZE - 1)
        );
        assert_eq!(
            small.get_highest_set_bit_unchecked(),
            SMALL_BIT_FIELD_BIT_SIZE - 1
        );
        small.clear_bit(i);
    }
}

#[test]
fn small_bitfield_validate_test_bit() {
    let mut small = SmallBitField::new();

    //
    // Out of bounds should return None for checked variant
    //

    assert_eq!(small.test_bit(SMALL_BIT_FIELD_BIT_SIZE), None);

    //
    // Set causes test to return true.
    //

    small.set_bit(0);
    assert_eq!(small.test_bit(0), Some(true));
    assert_eq!(small.test_bit_unchecked(0), true);

    //
    // Clear causes test to return false.
    //

    small.clear_bit(0);
    assert_eq!(small.test_bit(0), Some(false));
    assert_eq!(small.test_bit_unchecked(0), false);

    //
    // Changing another bit has no affect on the bit being tested.
    //

    small.set_bit(1);
    assert_eq!(small.test_bit(0), Some(false));
    assert_eq!(small.test_bit_unchecked(0), false);

    //
    // Clear causes test to return false.
    //

    small.set_bit(0);
    small.clear_bit(1);
    assert_eq!(small.test_bit(0), Some(true));
    assert_eq!(small.test_bit_unchecked(0), true);
}

//
// Method Tests
//

#[test]
fn small_bitfield_validate_set_and_clear_field() {
    let mut small = SmallBitField::new();
    let mut expected_value: usize = 0;
    let zeros: usize = 0;
    let fives = (0x55555555_55555555u64 & core::usize::MAX as u64) as usize;
    let a_s = (0xAAAAAAAA_AAAAAAAAu64 & core::usize::MAX as u64) as usize;
    let f_s = (0xFFFFFFFF_FFFFFFFFu64 & core::usize::MAX as u64) as usize;

    //
    // Calling set with 0 results in no change.
    //

    assert_eq!(small.get_field(), zeros);
    small.set_field(0);
    assert_eq!(small.get_field(), zeros);

    //
    // Setting only sets bits expected bits.
    //

    expected_value |= 1 << 1;
    small.set_bit(1);

    expected_value |= fives;
    small.set_field(fives);
    assert_eq!(small.get_field(), expected_value);

    //
    // Settings already set values should result in no change.
    //

    small.set_field(fives);
    assert_eq!(small.get_field(), expected_value);

    small.set_field(a_s);
    assert_eq!(small.get_field(), f_s);

    //
    // Clearing only clears expected bits.
    //

    small.clear_field(fives);
    assert_eq!(small.get_field(), a_s);

    //
    // Clearing already cleared values should result in no change.
    //

    small.clear_field(fives);
    assert_eq!(small.get_field(), a_s);

    //
    // Calling clear with 0 results in no change.
    //

    small.clear_field(0);
    assert_eq!(small.get_field(), a_s);
}

//
// Further Tests
//

#[test]
fn small_bitfield_empty_after_clear_of_everything() {
    let mut small = SmallBitField::new();
    small.clear_field(core::usize::MAX);

    assert_eq!(small.get_lowest_set_bit(), None);
    assert_eq!(small.get_highest_set_bit(), None);
    assert!(small.is_empty());

    small.set_bit(0);
    assert!(!small.is_empty());
    assert_eq!(small.get_lowest_set_bit(), Some(0));
    assert_eq!(small.get_highest_set_bit(), Some(0));

    small.set_bit(1);
    assert_eq!(small.get_lowest_set_bit(), Some(0));
    assert_eq!(small.get_highest_set_bit(), Some(1));
}

#[test]
fn small_bitfield_test_bit_far_out_of_range() {
    let mut small = SmallBitField::new();

    assert_eq!(small.test_bit(1000), None);
    assert_eq!(small.test_bit(usize::MAX), None);
    assert_eq!(small.test_bit(5), Some(false));

    small.set_bit(5);
    assert_eq!(small.test_bit(5), Some(true));

    small.set_bit(1000);
    small.clear_bit(usize::MAX);
    assert_eq!(small.get_field(), 1 << 5);
}

#[test]
fn small_bitfield_lowest_and_highest_of_two_bits() {
    let mut small = SmallBitField::new();

    small.set_bit(7);
    small.set_bit(9);
    assert_eq!(small.get_lowest_set_bit(), Some(7));
    assert_eq!(small.get_highest_set_bit(), Some(9));
    assert_eq!(small.get_field(), 0x280);

    small.clear_bit(7);
    assert_eq!(small.get_lowest_set_bit(), Some(9));
    assert_eq!(small.get_highest_set_bit(), Some(9));
}

#[test]
fn small_bitfield_unchecked_lookups_of_empty_are_zero() {
    let small = SmallBitField::new();

    assert_eq!(small.get_lowest_set_bit_unchecked(), 0);
    assert_eq!(small.get_highest_set_bit_unchecked(), 0);
}

use raztos_util::algorithms::debruijin::{
    get_highest_set_bit, get_lowest_set_bit, get_lowest_set_bit_16, get_lowest_set_bit_32,
    get_lowest_set_bit_64, get_lowest_set_bit_8,
};

//
// Helper functions
//

fn simple_lowest_set_bit(value: usize) -> usize {
    for index in 0..core::mem::size_of::<u64>() * 8 {
        if (value & (1 << index)) != 0 {
            return index;
        }
    }

    //
    // "Edge Case", no bits set. Return 0 to match De Bruijin functionality
    //

    0
}

fn simple_highest_set_bit(value: usize) -> usize {
    for index in (0..core::mem::size_of::<usize>() * 8).rev() {
        if (value & (1 << index)) != 0 {
            return index;
        }
    }

    0
}

//
// 8-bit Tests
//

#[test]
fn debruijin8() {
    println!(" --- 8-bit Debruijin Test ---");

    //
    // 8-bits is small enough, just test everything
    //

    for value in u8::min_value()..=u8::max_value() {
        let simple = simple_lowest_set_bit(value as usize);
        let debruijin = get_lowest_set_bit_8(value) as usize;

        println!("{:X}: Expected: {}, Actual {}", value, simple, debruijin);

        assert_eq!(simple, debruijin);
    }
}

//
// 16-bit Tests
//

#[test]
fn debruijin16() {
    println!(" --- 16-bit Debruijin Test ---");

    //
    // 16-bits is also small enough, just test everything
    //

    for value in u16::min_value()..=u16::max_value() {
        let simple = simple_lowest_set_bit(value as usize);
        let debruijin = get_lowest_set_bit_16(value) as usize;

        println!("{:X}: Expected: {}, Actual {}", value, simple, debruijin);

        assert_eq!(simple, debruijin);
    }
}

//
// 32-bit Tests
//

#[test]
fn debruijin32() {
    println!(" --- 32-bit Debruijin Test ---");

    //
    // 32-bits is too big! Test individual isolated bits
    //

    let mut isolated_bit = 1;

    loop {
        let simple = simple_lowest_set_bit(isolated_bit as usize);
        let debruijin = get_lowest_set_bit_32(isolated_bit) as usize;

        println!(
            "{:X}: Expected: {}, Actual {}",
            isolated_bit, simple, debruijin
        );

        assert_eq!(simple, debruijin);

        if isolated_bit == 0x8000_0000 {
            break;
        }

        isolated_bit = isolated_bit << 1;
    }

    //
    // Test 0
    //

    let debruijin = get_lowest_set_bit_32(0) as usize;
    println!("{:X}: Expected: {}, Actual {}", 0, 0, debruijin);
    assert_eq!(0, debruijin);

    //
    // Test 0xFFFFFFFF
    //

    let debruijin = get_lowest_set_bit_32(0xFFFF_FFFF) as usize;
    println!(
        "{:X}: Expected: {}, Actual {}",
        0xFFFF_FFFFu32, 0, debruijin
    );
    assert_eq!(0, debruijin);

    //
    // Test 0xAAAAAAAA
    //

    let debruijin = get_lowest_set_bit_32(0xAAAA_AAAA) as usize;
    println!(
        "{:X}: Expected: {}, Actual {}",
        0xAAAA_AAAAu32, 1, debruijin
    );
    assert_eq!(1, debruijin);
}

//
// 64-bit Tests
//

#[test]
fn debruijin64() {
    println!(" --- 64-bit Debruijin Test ---");

    //
    // 64-bits is too big! Test individual isolated bits
    //

    let mut isolated_bit = 1;

    loop {
        let simple = simple_lowest_set_bit(isolated_bit as usize);
        let debruijin = get_lowest_set_bit_64(isolated_bit) as usize;

        println!(
            "{:X}: Expected: {}, Actual {}",
            isolated_bit, simple, debruijin
        );

        assert_eq!(simple, debruijin);

        if isolated_bit == 0x8000_0000_0000_0000 {
            break;
        }

        isolated_bit = isolated_bit << 1;
    }

    //
    // Test 0
    //

    let debruijin = get_lowest_set_bit_64(0) as usize;
    println!("{:X}: Expected: {}, Actual {}", 0, 0, debruijin);
    assert_eq!(0, debruijin);

    //
    // Test 0xFFFFFFFF`FFFFFFFF
    //

    let debruijin = get_lowest_set_bit_64(0xFFFF_FFFF_FFFF_FFFF) as usize;
    println!(
        "{:X}: Expected: {}, Actual {}",
        0xFFFF_FFFF_FFFF_FFFFu64, 0, debruijin
    );

    assert_eq!(0, debruijin);

    //
    // Test 0xAAAAAAAA`AAAAAAAA
    //

    let debruijin = get_lowest_set_bit_64(0xAAAA_AAAA_AAAA_AAAA) as usize;
    println!(
        "{:X}: Expected: {}, Actual {}",
        0xAAAA_AAAA_AAAA_AAAAu64, 1, debruijin
    );

    assert_eq!(1, debruijin);
}

//
// Machine-word Tests
//

#[test]
fn lowest_set_bit_of_a_word() {
    assert_eq!(get_lowest_set_bit(5), 0);
    assert_eq!(get_lowest_set_bit(0), 0);
    assert_eq!(get_lowest_set_bit(usize::MAX), 0);
    assert_eq!(get_lowest_set_bit(0x50), 4);

    for position in 0..usize::BITS as usize {
        assert_eq!(get_lowest_set_bit(1 << position), position);
        assert_eq!(get_lowest_set_bit(usize::MAX << position), position);
    }
}

#[test]
fn highest_set_bit_of_a_word() {
    assert_eq!(get_highest_set_bit(5), 2);
    assert_eq!(get_highest_set_bit(1), 0);
    assert_eq!(get_highest_set_bit(usize::MAX), usize::BITS as usize - 1);
    assert_eq!(get_highest_set_bit(0x50), 6);

    for position in 0..usize::BITS as usize {
        assert_eq!(get_highest_set_bit(1 << position), position);
        assert_eq!(get_highest_set_bit(usize::MAX >> position), usize::BITS as usize - 1 - position);
    }
}

#[test]
fn highest_set_bit_of_zero_is_zero() {
    assert_eq!(get_highest_set_bit(0), 0);
}

#[test]
fn word_lookups_match_a_linear_scan() {
    let mut value: usize = 0x9E37_79B9_7F4A_7C15u64 as usize;

    for _ in 0..10_000 {
        assert_eq!(get_lowest_set_bit(value), simple_lowest_set_bit(value));
        assert_eq!(get_highest_set_bit(value), simple_highest_set_bit(value));

        value = value
            .wrapping_mul(6364136223846793005u64 as usize)
            .wrapping_add(1442695040888963407u64 as usize);
    }
}

#[test]
fn narrow_lookups_ignore_the_bits_above() {
    assert_eq!(get_lowest_set_bit_8(0x80), 7);
    assert_eq!(get_lowest_set_bit_16(0x8000), 15);
    assert_eq!(get_lowest_set_bit_32(0x8000_0000), 31);
    assert_eq!(get_lowest_set_bit_64(0x8000_0000_0000_0000), 63);
    assert_eq!(get_lowest_set_bit_8(0xAA), 1);
    assert_eq!(get_lowest_set_bit_16(0xAAAA), 1);
    assert_eq!(get_lowest_set_bit_8(0xFF), 0);
    assert_eq!(get_lowest_set_bit_16(0xFFFF), 0);
}

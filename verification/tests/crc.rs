use ucpack::crc::crc8_update;
use ucpack::{crc8, crc8_slice};

#[test]
fn crc8_of_nothing_is_zero() {
    assert_eq!(crc8_slice(&[]), 0);
    assert_eq!(crc8(Vec::<u8>::new().into_iter()), 0);
}

#[test]
fn crc8_known_values() {
    assert_eq!(crc8_slice(b"123456789"), 0xA1);
    assert_eq!(crc8_slice(&[0x01]), 0x5E);
    assert_eq!(crc8_slice(&[0x00]), 0x00);
    assert_eq!(crc8_slice(&[0xFF]), 0x35);
    assert_eq!(crc8_slice(&[1, 0, 2, 0, 0, 0x80, 0x3F]), 0x6E);
}

#[test]
fn crc8_one_byte_at_a_time() {
    assert_eq!(crc8_update(0, 0x01), 0x5E);
    let mut crc = 0;
    for byte in b"123456789" {
        crc = crc8_update(crc, *byte);
    }
    assert_eq!(crc, 0xA1);
}

#[test]
fn crc8_over_an_iterator_is_crc8_over_the_slice() {
    let bytes: Vec<u8> = (0u8..200).collect();
    assert_eq!(crc8(bytes.iter().copied()), crc8_slice(&bytes));
    assert_eq!(crc8(b"123456789".iter().copied()), 0xA1);
}

#[test]
fn crc8_equal_inputs_equal_outputs() {
    let a = vec![3u8, 1, 4, 1, 5, 9, 2, 6];
    let b = a.clone();
    assert_eq!(crc8_slice(&a), crc8_slice(&b));
    assert_eq!(crc8_slice(&a), crc8_slice(&a));
}

#[test]
fn crc8_single_bit_flips_change_the_checksum() {
    let original = [1u8, 0, 2, 0, 0, 0x80, 0x3F];
    let crc = crc8_slice(&original);
    for at in 0..original.len() {
        for bit in 0..8 {
            let mut flipped = original;
            flipped[at] ^= 1 << bit;
            assert_ne!(crc8_slice(&flipped), crc);
        }
    }
}

#[test]
fn crc8_any_changed_byte_changes_the_checksum() {
    let original = [0x10u8, 0x20, 0x30];
    let crc = crc8_slice(&original);
    for at in 0..original.len() {
        for other in 0..=255u8 {
            if other != original[at] {
                let mut changed = original;
                changed[at] = other;
                assert_ne!(crc8_slice(&changed), crc);
            }
        }
    }
}

use composite::error::CompositeError;
use composite::packing::{pack, unpack, MAX_CODE};

#[test]
fn pack_follows_the_bit_layout() {
    assert_eq!(pack(0, 0, 0, 0), Ok((0, 0, 0)));
    assert_eq!(pack(63, 63, 63, 63), Ok((255, 255, 255)));
    // code0 = 000001, code1 = 000010, code2 = 000011, code3 = 000100
    assert_eq!(pack(1, 2, 3, 4), Ok((0b1000_0001, 0b0011_0000, 0b0001_0000)));
    assert_eq!(pack(0b101010, 0b110011, 0b011110, 0b100001), Ok((0xea, 0xec, 0x85)));
    assert_eq!(pack(0, 63, 0, 0), Ok((0b1100_0000, 0b0000_1111, 0)));
    assert_eq!(pack(0, 0, 63, 0), Ok((0, 0b1111_0000, 0b0000_0011)));
    assert_eq!(pack(0, 0, 0, 63), Ok((0, 0, 0b1111_1100)));
}

#[test]
fn unpack_inverts_pack_for_all_codes() {
    for c0 in 0..=MAX_CODE {
        for c1 in 0..=MAX_CODE {
            for c2 in [0u8, 1, 17, 31, 32, 47, 62, 63] {
                for c3 in [0u8, 5, 21, 42, 63] {
                    let (b0, b1, b2) = pack(c0, c1, c2, c3).unwrap();
                    assert_eq!(unpack(b0, b1, b2), (c0, c1, c2, c3));
                }
            }
        }
    }
    for c2 in 0..=MAX_CODE {
        for c3 in 0..=MAX_CODE {
            let (b0, b1, b2) = pack(9, 54, c2, c3).unwrap();
            assert_eq!(unpack(b0, b1, b2), (9, 54, c2, c3));
        }
    }
}

#[test]
fn unpack_reads_every_byte_pattern() {
    assert_eq!(unpack(0xff, 0xff, 0xff), (63, 63, 63, 63));
    assert_eq!(unpack(0xea, 0xec, 0x85), (0b101010, 0b110011, 0b011110, 0b100001));
    assert_eq!(unpack(0x40, 0x00, 0x00), (0, 1, 0, 0));
    assert_eq!(unpack(0x00, 0x10, 0x00), (0, 0, 1, 0));
    assert_eq!(unpack(0x00, 0x00, 0x04), (0, 0, 0, 1));
}

#[test]
fn a_code_above_63_is_an_overflow() {
    assert_eq!(pack(64, 0, 0, 0), Err(CompositeError::PackingOverflow(64)));
    assert_eq!(pack(0, 200, 0, 0), Err(CompositeError::PackingOverflow(200)));
    assert_eq!(pack(0, 0, 65, 0), Err(CompositeError::PackingOverflow(65)));
    assert_eq!(pack(0, 0, 0, 255), Err(CompositeError::PackingOverflow(255)));
    // the first one is reported
    assert_eq!(pack(1, 70, 80, 90), Err(CompositeError::PackingOverflow(70)));
}

use deet::word::{align_addr_to_word, byte_offset, extract_byte, replace_byte, TRAP_OPCODE};

#[test]
fn aligns_down_to_a_multiple_of_eight() {
    assert_eq!(align_addr_to_word(0x401000), 0x401000);
    assert_eq!(align_addr_to_word(0x401003), 0x401000);
    assert_eq!(align_addr_to_word(0x401007), 0x401000);
    assert_eq!(align_addr_to_word(0x401008), 0x401008);
    assert_eq!(align_addr_to_word(0), 0);
    assert_eq!(align_addr_to_word(7), 0);
    assert_eq!(align_addr_to_word(u64::MAX), u64::MAX - 7);
}

#[test]
fn offset_is_the_distance_from_the_word() {
    assert_eq!(byte_offset(0x401000), 0);
    assert_eq!(byte_offset(0x401005), 5);
    assert_eq!(byte_offset(u64::MAX), 7);
    for addr in 0x1000u64..0x1040 {
        assert_eq!(align_addr_to_word(addr) + byte_offset(addr), addr);
    }
}

#[test]
fn extracts_each_byte_least_significant_first() {
    let word: u64 = 0x8877_6655_4433_2211;
    let expected: [u8; 8] = [0x11, 0x22, 0x33, 0x44, 0x55, 0x66, 0x77, 0x88];
    for k in 0..8u64 {
        assert_eq!(extract_byte(word, k), expected[k as usize]);
    }
    assert_eq!(word.to_le_bytes(), expected);
}

#[test]
fn replaces_one_byte_and_keeps_the_rest() {
    let word: u64 = 0x8877_6655_4433_2211;
    assert_eq!(replace_byte(word, 0, TRAP_OPCODE), 0x8877_6655_4433_22cc);
    assert_eq!(replace_byte(word, 3, TRAP_OPCODE), 0x8877_6655_cc33_2211);
    assert_eq!(replace_byte(word, 7, TRAP_OPCODE), 0xcc77_6655_4433_2211);
    assert_eq!(replace_byte(u64::MAX, 2, 0), 0xffff_ffff_ff00_ffff);
}

#[test]
fn patch_and_restore_round_trip() {
    let words: [u64; 4] = [0, u64::MAX, 0x8877_6655_4433_2211, 0xcccc_cccc_cccc_cccc];
    for word in words {
        for k in 0..8u64 {
            let original = extract_byte(word, k);
            let patched = replace_byte(word, k, TRAP_OPCODE);
            assert_eq!(extract_byte(patched, k), TRAP_OPCODE);
            for other in 0..8u64 {
                if other != k {
                    assert_eq!(extract_byte(patched, other), extract_byte(word, other));
                }
            }
            assert_eq!(replace_byte(patched, k, original), word);
        }
    }
}

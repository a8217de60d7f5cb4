use deet::word::{align_addr_to_word, get_byte, set_byte, WORD_BYTES};

#[test]
fn an_address_is_aligned_down_to_its_word() {
    assert_eq!(WORD_BYTES, 8);
    assert_eq!(align_addr_to_word(0), 0);
    assert_eq!(align_addr_to_word(7), 0);
    assert_eq!(align_addr_to_word(8), 8);
    assert_eq!(align_addr_to_word(0x1003), 0x1000);
    assert_eq!(align_addr_to_word(0x401041), 0x401040);
    assert_eq!(align_addr_to_word(u64::MAX), u64::MAX - 7);
}

#[test]
fn the_bytes_of_a_word_count_from_the_low_end() {
    let word = 0x8877_6655_4433_2211;
    let bytes: Vec<u8> = (0..8).map(|k| get_byte(word, k)).collect();
    assert_eq!(bytes, vec![0x11, 0x22, 0x33, 0x44, 0x55, 0x66, 0x77, 0x88]);
}

#[test]
fn a_replaced_byte_reads_back_and_the_others_stay() {
    let word = 0x8877_6655_4433_2211;
    for k in 0..8 {
        for val in [0x00, 0xcc, 0xff] {
            let patched = set_byte(word, k, val);
            for j in 0..8 {
                let expected = if j == k { val } else { get_byte(word, j) };
                assert_eq!(get_byte(patched, j), expected);
            }
            assert_eq!(set_byte(patched, k, get_byte(word, k)), word);
        }
    }
    assert_eq!(set_byte(word, 3, 0xcc), 0x8877_6655_cc33_2211);
    assert_eq!(set_byte(word, 7, 0xcc), 0xcc77_6655_4433_2211);
    assert_eq!(set_byte(word, 0, 0xcc), 0x8877_6655_4433_22cc);
}

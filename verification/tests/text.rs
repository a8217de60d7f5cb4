use deet::text::{chars_of, digit, parse_addr, parse_count, push_decimal, push_digits, push_hex};

#[test]
fn addresses_are_read_in_base_sixteen() {
    assert_eq!(parse_addr("0x1f"), Some(31));
    assert_eq!(parse_addr("1F"), Some(31));
    assert_eq!(parse_addr("0X10"), Some(16));
    assert_eq!(parse_addr("401000"), Some(0x401000));
    assert_eq!(parse_addr("0x0"), Some(0));
    assert_eq!(parse_addr("000a"), Some(10));
}

#[test]
fn an_address_is_digits_and_nothing_else() {
    assert_eq!(parse_addr("+ff"), None);
    assert_eq!(parse_addr("+1f"), None);
    assert_eq!(parse_addr("0x+ff"), None);
    assert_eq!(parse_addr("-1"), None);
    assert_eq!(parse_addr("+"), None);
    assert_eq!(parse_addr("++1"), None);
    assert_eq!(parse_addr(" 1"), None);
    assert_eq!(parse_addr("1 "), None);
    assert_eq!(parse_addr("1f"), Some(31));
}

#[test]
fn what_is_no_hexadecimal_number_is_no_address() {
    assert_eq!(parse_addr(""), None);
    assert_eq!(parse_addr("0x"), None);
    assert_eq!(parse_addr("x10"), None);
    assert_eq!(parse_addr("12g"), None);
    assert_eq!(parse_addr("0x0x1"), None);
    assert_eq!(parse_addr("main"), None);
    assert_eq!(parse_addr("１２"), None);
}

#[test]
fn an_address_fills_sixty_four_bits_and_no_more() {
    assert_eq!(parse_addr("ffffffffffffffff"), Some(u64::MAX));
    assert_eq!(parse_addr("0xFFFFFFFFFFFFFFFF"), Some(u64::MAX));
    assert_eq!(parse_addr("10000000000000000"), None);
    assert_eq!(parse_addr("0x00000000000000000001"), Some(1));
    assert_eq!(parse_addr("fffffffffffffffff"), None);
}

#[test]
fn counts_are_read_in_base_ten() {
    assert_eq!(parse_count("42"), Some(42));
    assert_eq!(parse_count("+7"), None);
    assert_eq!(parse_count("+"), None);
    assert_eq!(parse_count("007"), Some(7));
    assert_eq!(parse_count("0"), Some(0));
    assert_eq!(parse_count(""), None);
    assert_eq!(parse_count("4x"), None);
    assert_eq!(parse_count("a"), None);
    assert_eq!(parse_count("-3"), None);
    assert_eq!(parse_count("1.5"), None);
}

#[test]
fn a_count_fits_the_machine_or_is_none() {
    assert_eq!(parse_count(&usize::MAX.to_string()), Some(usize::MAX));
    assert_eq!(parse_count("18446744073709551616"), None);
    assert_eq!(parse_count("99999999999999999999999"), None);
}

#[test]
fn digits_have_their_values() {
    assert_eq!(digit('0'), Some(0));
    assert_eq!(digit('9'), Some(9));
    assert_eq!(digit('a'), Some(10));
    assert_eq!(digit('F'), Some(15));
    assert_eq!(digit('z'), Some(35));
    assert_eq!(digit('Z'), Some(35));
    assert_eq!(digit('/'), None);
    assert_eq!(digit(':'), None);
    assert_eq!(digit('@'), None);
    assert_eq!(digit('['), None);
    assert_eq!(digit('`'), None);
    assert_eq!(digit('{'), None);
    assert_eq!(digit('é'), None);
}

#[test]
fn the_characters_of_a_text_are_its_unicode_scalars() {
    assert_eq!(chars_of("aé漢"), vec!['a', 'é', '漢']);
    assert_eq!(chars_of(""), Vec::<char>::new());
}

fn decimal(n: i64) -> String {
    let mut out = String::new();
    push_decimal(&mut out, n);
    out
}

fn hex(n: u64) -> String {
    let mut out = String::new();
    push_hex(&mut out, n);
    out
}

#[test]
fn numbers_are_written_in_base_ten() {
    assert_eq!(decimal(0), "0");
    assert_eq!(decimal(7), "7");
    assert_eq!(decimal(10), "10");
    assert_eq!(decimal(1234567890), "1234567890");
    assert_eq!(decimal(-5), "-5");
    assert_eq!(decimal(i64::MAX), "9223372036854775807");
    assert_eq!(decimal(i64::MIN), "-9223372036854775808");
}

#[test]
fn addresses_are_written_in_base_sixteen() {
    assert_eq!(hex(0), "0x0");
    assert_eq!(hex(0x401000), "0x401000");
    assert_eq!(hex(255), "0xff");
    assert_eq!(hex(u64::MAX), "0xffffffffffffffff");
}

#[test]
fn digits_are_appended_to_what_is_there() {
    let mut out = String::from("n=");
    push_digits(&mut out, 5, 2);
    assert_eq!(out, "n=101");
    push_digits(&mut out, 0, 16);
    assert_eq!(out, "n=1010");
}

#[test]
fn what_is_written_is_read_back() {
    for n in [0u64, 1, 9, 10, 15, 16, 255, 256, 0x401000, u64::MAX] {
        assert_eq!(parse_addr(&hex(n)), Some(n));
    }
    for n in [0usize, 1, 9, 10, 99, 100, 65535] {
        assert_eq!(parse_count(&decimal(n as i64)), Some(n));
    }
}

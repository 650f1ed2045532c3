use lightswitch::text::{append_address, append_decimal, append_padded_decimal, append_signed_decimal};

#[test]
fn append_decimal_writes_the_digits() {
    let mut out = String::from("n=");
    append_decimal(&mut out, 0);
    assert_eq!(out, "n=0");
    let mut out = String::new();
    append_decimal(&mut out, 1234567890);
    assert_eq!(out, "1234567890");
    let mut out = String::new();
    append_decimal(&mut out, u64::MAX);
    assert_eq!(out, "18446744073709551615");
}

#[test]
fn append_signed_decimal_writes_the_sign() {
    let mut out = String::new();
    append_signed_decimal(&mut out, -1);
    append_signed_decimal(&mut out, 0);
    append_signed_decimal(&mut out, 42);
    assert_eq!(out, "-1042");
    let mut out = String::new();
    append_signed_decimal(&mut out, i32::MIN);
    assert_eq!(out, "-2147483648");
}

#[test]
fn append_padded_decimal_fills_with_blanks() {
    let mut out = String::from("[");
    append_padded_decimal(&mut out, 7, 3);
    assert_eq!(out, "[  7");
    let mut out = String::new();
    append_padded_decimal(&mut out, 126, 3);
    assert_eq!(out, "126");
    let mut out = String::new();
    append_padded_decimal(&mut out, 1000, 3);
    assert_eq!(out, "1000");
}

#[test]
fn append_address_writes_sixteen_digits() {
    let mut out = String::new();
    append_address(&mut out, 0);
    assert_eq!(out, "0x0000000000000000");
    let mut out = String::new();
    append_address(&mut out, 0xdeadbeef);
    assert_eq!(out, "0x00000000deadbeef");
    let mut out = String::new();
    append_address(&mut out, u64::MAX);
    assert_eq!(out, "0xffffffffffffffff");
    let mut out = String::new();
    append_address(&mut out, 0x0123_4567_89ab_cdef);
    assert_eq!(out, "0x0123456789abcdef");
}

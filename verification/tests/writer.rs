use basm_std::writer::Writer;

fn text<F: FnOnce(&mut Writer<64>)>(f: F) -> String {
    let mut w: Writer<64> = Writer::new();
    f(&mut w);
    String::from_utf8(w.as_bytes().to_vec()).unwrap()
}

#[test]
fn new_writer_is_empty() {
    let w: Writer<16> = Writer::new();
    assert!(w.as_bytes().is_empty());
}

#[test]
fn write_appends_bytes() {
    let mut w: Writer<16> = Writer::new();
    w.write(b"ab");
    w.write(b"");
    w.write(b"cd");
    assert_eq!(w.as_bytes(), b"abcd");
}

#[test]
fn clear_forgets_everything() {
    let mut w: Writer<16> = Writer::new();
    w.write_u32(12345);
    w.clear();
    assert!(w.as_bytes().is_empty());
    w.write_u8(7);
    assert_eq!(w.as_bytes(), b"7");
}

#[test]
fn write_u8_values() {
    assert_eq!(text(|w| w.write_u8(0)), "0");
    assert_eq!(text(|w| w.write_u8(9)), "9");
    assert_eq!(text(|w| w.write_u8(10)), "10");
    assert_eq!(text(|w| w.write_u8(100)), "100");
    assert_eq!(text(|w| w.write_u8(255)), "255");
}

#[test]
fn write_u16_values() {
    assert_eq!(text(|w| w.write_u16(0)), "0");
    assert_eq!(text(|w| w.write_u16(1000)), "1000");
    assert_eq!(text(|w| w.write_u16(10001)), "10001");
    assert_eq!(text(|w| w.write_u16(65535)), "65535");
}

#[test]
fn write_u32_below_ten_to_the_eight() {
    assert_eq!(text(|w| w.write_u32(0)), "0");
    assert_eq!(text(|w| w.write_u32(7)), "7");
    assert_eq!(text(|w| w.write_u32(10)), "10");
    assert_eq!(text(|w| w.write_u32(1000001)), "1000001");
    assert_eq!(text(|w| w.write_u32(99999999)), "99999999");
}

#[test]
fn write_u32_from_ten_to_the_eight() {
    assert_eq!(text(|w| w.write_u32(100000000)), "100000000");
    assert_eq!(text(|w| w.write_u32(100000001)), "100000001");
    assert_eq!(text(|w| w.write_u32(999999999)), "999999999");
    assert_eq!(text(|w| w.write_u32(1000000000)), "1000000000");
    assert_eq!(text(|w| w.write_u32(1234567890)), "1234567890");
    assert_eq!(text(|w| w.write_u32(u32::MAX)), "4294967295");
}

#[test]
fn write_u64_each_range() {
    assert_eq!(text(|w| w.write_u64(0)), "0");
    assert_eq!(text(|w| w.write_u64(99999999)), "99999999");
    assert_eq!(text(|w| w.write_u64(100000000)), "100000000");
    assert_eq!(text(|w| w.write_u64(123456789012345)), "123456789012345");
    assert_eq!(text(|w| w.write_u64(9999999999999999)), "9999999999999999");
    assert_eq!(text(|w| w.write_u64(10000000000000000)), "10000000000000000");
    assert_eq!(text(|w| w.write_u64(10000000000000001)), "10000000000000001");
    assert_eq!(text(|w| w.write_u64(1000000000000000000)), "1000000000000000000");
    assert_eq!(text(|w| w.write_u64(u64::MAX)), "18446744073709551615");
}

#[test]
fn write_usize_matches_u64() {
    assert_eq!(text(|w| w.write_usize(0)), "0");
    assert_eq!(text(|w| w.write_usize(4096)), "4096");
    assert_eq!(text(|w| w.write_usize(usize::MAX)), usize::MAX.to_string());
}

#[test]
fn write_signed_values() {
    assert_eq!(text(|w| w.write_i8(0)), "0");
    assert_eq!(text(|w| w.write_i8(-1)), "-1");
    assert_eq!(text(|w| w.write_i8(i8::MIN)), "-128");
    assert_eq!(text(|w| w.write_i8(i8::MAX)), "127");
    assert_eq!(text(|w| w.write_i16(i16::MIN)), "-32768");
    assert_eq!(text(|w| w.write_i16(-100)), "-100");
    assert_eq!(text(|w| w.write_i32(i32::MIN)), "-2147483648");
    assert_eq!(text(|w| w.write_i32(-100000000)), "-100000000");
    assert_eq!(text(|w| w.write_i32(i32::MAX)), "2147483647");
    assert_eq!(text(|w| w.write_i64(i64::MIN)), "-9223372036854775808");
    assert_eq!(text(|w| w.write_i64(-42)), "-42");
    assert_eq!(text(|w| w.write_i64(i64::MAX)), "9223372036854775807");
    assert_eq!(text(|w| w.write_isize(-7)), "-7");
    assert_eq!(text(|w| w.write_isize(isize::MIN)), isize::MIN.to_string());
}

#[test]
fn writes_follow_one_another() {
    let mut w: Writer<64> = Writer::new();
    w.write_u32(12);
    w.write(b" ");
    w.write_i64(-3);
    w.write(b"\n");
    w.write_u64(100000000);
    assert_eq!(w.as_bytes(), b"12 -3\n100000000");
}

#[test]
fn u32_samples_agree_with_std() {
    let mut x: u32 = 1;
    for _ in 0..200 {
        let got = text(|w| w.write_u32(x));
        assert_eq!(got, x.to_string());
        x = x.wrapping_mul(2654435761).wrapping_add(12345);
    }
}

#[test]
fn u64_samples_agree_with_std() {
    let mut x: u64 = 1;
    for _ in 0..200 {
        let got = text(|w| w.write_u64(x));
        assert_eq!(got, x.to_string());
        let s = text(|w| w.write_i64(x as i64));
        assert_eq!(s, (x as i64).to_string());
        x = x.wrapping_mul(6364136223846793005).wrapping_add(1442695040888963407);
    }
}

#[test]
fn powers_of_ten_u64() {
    let mut p: u64 = 1;
    loop {
        assert_eq!(text(|w| w.write_u64(p)), p.to_string());
        assert_eq!(text(|w| w.write_u64(p - 1)), (p - 1).to_string());
        match p.checked_mul(10) {
            Some(q) => p = q,
            None => break,
        }
    }
}

use const_fmt::buffer::Buffer;
use const_fmt::buffer::BufferWriteFailed;

#[test]
fn test_all_u8() {
    for i in 0..=u8::MAX {
        let mut buffer = Buffer::new::<3>();
        let _ = buffer.write_u8(i);
        let s = format!("{i}");
        assert_eq!(buffer.as_str(), s);
    }
}

#[test]
fn test_all_u16() {
    for i in 0..=u16::MAX {
        let mut buffer = Buffer::new::<5>();
        let _ = buffer.write_u16(i);
        let s = format!("{i}");
        assert_eq!(buffer.as_str(), s);
    }
}

#[test]
fn capacity_boundary_u16() {
    let mut b4 = Buffer::new::<4>();
    assert!(b4.write_u16(12345).is_err());
    assert_eq!(b4.len(), 0);
    assert_eq!(b4.as_str(), "");

    let mut b6 = Buffer::new::<6>();
    assert!(b6.write_u16(12345).is_ok());
    assert_eq!(b6.as_str(), "12345");
    assert_eq!(b6.len(), 5);
    assert_eq!(b6.remaining_capacity(), 1);
}

#[test]
fn exact_fill_and_one_short() {
    let mut b = Buffer::new::<3>();
    b.write_u8(255).unwrap();
    assert_eq!(b.remaining_capacity(), 0);
    assert_eq!(b.as_str(), "255");
    assert!(b.write_u8(7).is_err());
    assert_eq!(b.as_str(), "255");

    let mut c = Buffer::new::<2>();
    assert!(c.write_u8(255).is_err());
    assert_eq!(c.len(), 0);
}

#[test]
fn signed_negative_i8() {
    let mut b = Buffer::new::<4>();
    assert!(b.write_i8(-12).is_ok());
    assert_eq!(b.as_str(), "-12");
    assert_eq!(b.len(), 3);
}

#[test]
fn signed_failure_leaves_buffer_unchanged() {
    let mut b = Buffer::new::<2>();
    assert!(b.write_i16(-123).is_err());
    assert_eq!(b.as_str(), "");
    assert_eq!(b.len(), 0);

    let mut c = Buffer::new::<0>();
    assert!(c.write_i8(-1).is_err());
    assert_eq!(c.len(), 0);

    let mut d = Buffer::new::<4>();
    d.write_i16(-123).unwrap();
    assert_eq!(d.as_str(), "-123");
}

#[test]
fn zero_writes_one_byte() {
    let mut b = Buffer::new::<1>();
    b.write_u8(0).unwrap();
    assert_eq!(b.as_str(), "0");
    assert_eq!(b.len(), 1);
    b.clear();
    b.write_u16(0).unwrap();
    assert_eq!(b.as_str(), "0");
    b.clear();
    b.write_u32(0).unwrap();
    assert_eq!(b.as_str(), "0");
    b.clear();
    b.write_u64(0).unwrap();
    assert_eq!(b.as_str(), "0");
    b.clear();
    b.write_u128(0).unwrap();
    assert_eq!(b.as_str(), "0");
    b.clear();
    b.write_usize(0).unwrap();
    assert_eq!(b.as_str(), "0");
}

#[test]
fn round_trip_u32_samples() {
    let samples = [
        0u32, 1, 9, 10, 99, 100, 999, 1000, 9999, 10000, 10001, 65535, 65536, 1000000, 123456789,
        u32::MAX,
    ];
    for &v in samples.iter() {
        let mut b = Buffer::new::<10>();
        b.write_u32(v).unwrap();
        assert_eq!(b.as_str().parse::<u32>(), Ok(v));
    }
}

#[test]
fn round_trip_i64_samples() {
    let samples = [
        i64::MIN,
        -1000000007,
        -10000,
        -9999,
        -10,
        -9,
        -1,
        0,
        1,
        42,
        9999999999999999,
        i64::MAX,
    ];
    for &v in samples.iter() {
        let mut b = Buffer::new::<20>();
        b.write_i64(v).unwrap();
        assert_eq!(b.as_str().parse::<i64>(), Ok(v));
    }
}

#[test]
fn chunk_boundaries_u64() {
    let samples = [
        9u64,
        10,
        9999,
        10000,
        10001,
        99999999,
        100000000,
        4294967295,
        4294967296,
        123456789012345678,
        9999999999999999999,
        u64::MAX,
    ];
    for &v in samples.iter() {
        let mut b = Buffer::new::<20>();
        b.write_u64(v).unwrap();
        assert_eq!(b.as_str(), format!("{v}"));
    }
}

#[test]
fn extreme_values() {
    let mut b = Buffer::new::<39>();
    b.write_u128(u128::MAX).unwrap();
    assert_eq!(b.as_str(), "340282366920938463463374607431768211455");
    assert_eq!(b.remaining_capacity(), 0);
    b.clear();
    b.write_u64(u64::MAX).unwrap();
    assert_eq!(b.as_str(), "18446744073709551615");
}

#[test]
fn signed_minimums() {
    let mut b = Buffer::new::<64>();
    b.write_i8(i8::MIN).unwrap();
    assert_eq!(b.as_str(), "-128");
    b.clear();
    b.write_i16(i16::MIN).unwrap();
    assert_eq!(b.as_str(), "-32768");
    b.clear();
    b.write_i32(i32::MIN).unwrap();
    assert_eq!(b.as_str(), "-2147483648");
    b.clear();
    b.write_i64(i64::MIN).unwrap();
    assert_eq!(b.as_str(), "-9223372036854775808");
    b.clear();
    b.write_i128(i128::MIN).unwrap();
    assert_eq!(b.as_str(), "-170141183460469231731687303715884105728");
    b.clear();
    b.write_isize(isize::MIN).unwrap();
    assert_eq!(b.as_str(), format!("{}", isize::MIN));
}

#[test]
fn pointer_width_writers() {
    let mut b = Buffer::new::<64>();
    b.write_usize(usize::MAX).unwrap();
    assert_eq!(b.as_str(), format!("{}", usize::MAX));
    b.clear();
    b.write_isize(-12345).unwrap();
    assert_eq!(b.as_str(), "-12345");
}

#[test]
fn push_str_checks_capacity() {
    let mut b = Buffer::new::<5>();
    b.push_str("hello").unwrap();
    assert!(b.push_str("!").is_err());
    assert_eq!(b.as_str(), "hello");
    b.clear();
    assert!(b.is_empty());
    assert_eq!(b.remaining_capacity(), 5);
    assert_eq!(b.capacity(), 5);
}

#[test]
fn write_char_widths() {
    let mut b = Buffer::new::<10>();
    b.write_char('A').unwrap();
    b.write_char('\u{e9}').unwrap();
    b.write_char('\u{20ac}').unwrap();
    b.write_char('\u{1f600}').unwrap();
    assert_eq!(b.len(), 10);
    assert_eq!(b.remaining_capacity(), 0);
    assert_eq!(b.as_str(), "A\u{e9}\u{20ac}\u{1f600}");
}

#[test]
fn write_char_overflow() {
    let mut b = Buffer::new::<1>();
    assert!(b.write_char('\u{e9}').is_err());
    assert_eq!(b.len(), 0);
    b.write_char('x').unwrap();
    assert_eq!(b.as_str(), "x");
}

#[test]
fn append_concatenates() {
    let mut x = Buffer::new::<4>();
    x.push_str("ab").unwrap();
    let mut y = Buffer::new::<8>();
    y.write_u32(123).unwrap();
    let z = x.append(&y);
    assert_eq!(z.as_str(), "ab123");
    assert_eq!(z.capacity(), 12);
    assert_eq!(z.len(), 5);
    assert_eq!(x.as_str(), "ab");
    assert_eq!(y.as_str(), "123");

    let w = z.append(&x);
    assert_eq!(w.as_str(), "ab123ab");
    assert_eq!(w.capacity(), 16);
}

#[test]
fn append_empty_buffers() {
    let x = Buffer::new::<3>();
    let y = Buffer::new::<2>();
    let z = x.append(&y);
    assert_eq!(z.as_str(), "");
    assert_eq!(z.capacity(), 5);
    assert!(z.is_empty());
}

#[test]
fn as_str_idempotent() {
    let mut b = Buffer::new::<8>();
    b.write_i32(-42).unwrap();
    let first = b.as_str().to_string();
    let second = b.as_str().to_string();
    assert_eq!(first, second);
    assert_eq!(first, "-42");
}

#[test]
fn overflow_error_value() {
    let mut b = Buffer::new::<0>();
    assert_eq!(b.write_u8(1), Err(BufferWriteFailed));
    assert_eq!(b.push_str("x"), Err(BufferWriteFailed));
    assert_eq!(b.write_char('x'), Err(BufferWriteFailed));
    assert_eq!(b.write_i32(-1), Err(BufferWriteFailed));
    assert_eq!(b.len(), 0);
}

#[test]
fn mixed_writes_accumulate() {
    let mut b = Buffer::new::<32>();
    b.push_str("x=").unwrap();
    b.write_i32(-7).unwrap();
    b.write_char(';').unwrap();
    b.push_str(" y=").unwrap();
    b.write_u128(12003400560078900).unwrap();
    assert_eq!(b.as_str(), "x=-7; y=12003400560078900");
}

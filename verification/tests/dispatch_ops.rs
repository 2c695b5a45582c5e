use const_fmt::buffer::Buffer;
use const_fmt::dispatch::get_writer;
use const_fmt::dispatch::Selection;
use const_fmt::dispatch::Selector;

#[test]
fn test() {
    let x = 0u8;

    let mut buffer = Buffer::new::<20>();
    (&&&&Selector(&x)).select().display(&x, &mut buffer).unwrap();

    assert_eq!(buffer.as_str(), "0");
}

#[test]
fn dispatch_every_builtin_type() {
    let mut b = Buffer::new::<128>();
    get_writer(&1u8).display(&1u8, &mut b).unwrap();
    get_writer(&2u16).display(&2u16, &mut b).unwrap();
    get_writer(&3u32).display(&3u32, &mut b).unwrap();
    get_writer(&4u64).display(&4u64, &mut b).unwrap();
    get_writer(&5u128).display(&5u128, &mut b).unwrap();
    get_writer(&6usize).display(&6usize, &mut b).unwrap();
    get_writer(&-1i8).display(&-1i8, &mut b).unwrap();
    get_writer(&-2i16).display(&-2i16, &mut b).unwrap();
    get_writer(&-3i32).display(&-3i32, &mut b).unwrap();
    get_writer(&-4i64).display(&-4i64, &mut b).unwrap();
    get_writer(&-5i128).display(&-5i128, &mut b).unwrap();
    get_writer(&-6isize).display(&-6isize, &mut b).unwrap();
    get_writer(&'!').display(&'!', &mut b).unwrap();
    let s: &str = "end";
    get_writer(&s).display(s, &mut b).unwrap();
    assert_eq!(b.as_str(), "123456-1-2-3-4-5-6!end");
}

#[test]
fn dispatch_matches_buffer_writers() {
    let mut direct = Buffer::new::<16>();
    let mut resolved = Buffer::new::<16>();
    direct.write_u32(4711).unwrap();
    get_writer(&4711u32).display(&4711u32, &mut resolved).unwrap();
    assert_eq!(direct.as_str(), resolved.as_str());

    let mut direct2 = Buffer::new::<16>();
    let mut resolved2 = Buffer::new::<16>();
    direct2.write_i64(-98765).unwrap();
    get_writer(&-98765i64).display(&-98765i64, &mut resolved2).unwrap();
    assert_eq!(direct2.as_str(), resolved2.as_str());
}

#[test]
fn selector_resolves_declared_writer() {
    let v = 255u8;
    let mut b = Buffer::new::<3>();
    let w = (&&&&Selector(&v)).select();
    w.display(&v, &mut b).unwrap();
    assert_eq!(b.as_str(), "255");
}

#[test]
fn dispatch_overflow_reported() {
    let v = 12345u16;
    let mut b = Buffer::new::<4>();
    assert!(get_writer(&v).display(&v, &mut b).is_err());
    assert_eq!(b.len(), 0);
}

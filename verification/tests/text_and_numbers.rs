use stm32_4g_gps::clock::{deadline_after, fits};
use stm32_4g_gps::led::blink;
use stm32_4g_gps::system_info::usize_to_ascii;
use stm32_4g_gps::text::{append_bytes, begins_with, bytes, closes_with, find, stands_at};

#[test]
fn append_fits() {
    let mut buf = [b'.'; 8];
    let mut idx = 2;
    append_bytes(&mut buf, &mut idx, b"abc");
    assert_eq!(idx, 5);
    assert_eq!(&buf, b"..abc...");
}

#[test]
fn append_cuts_what_does_not_fit() {
    let mut buf = [b'.'; 4];
    let mut idx = 2;
    append_bytes(&mut buf, &mut idx, b"abc");
    assert_eq!(idx, 4);
    assert_eq!(&buf, b"..ab");
    append_bytes(&mut buf, &mut idx, b"z");
    assert_eq!(idx, 4);
    assert_eq!(&buf, b"..ab");
}

#[test]
fn append_in_pieces_keeps_the_same_as_at_once() {
    let mut pieces = [0u8; 5];
    let mut a = 0;
    append_bytes(&mut pieces, &mut a, b"abcd");
    append_bytes(&mut pieces, &mut a, b"efgh");
    let mut once = [0u8; 5];
    let mut b = 0;
    append_bytes(&mut once, &mut b, b"abcdefgh");
    assert_eq!((pieces, a), (once, b));
}

#[test]
fn prefixes_suffixes_and_occurrences() {
    assert!(begins_with(b"+GPSST: 1", b"+GPSST:"));
    assert!(!begins_with(b"+GPS", b"+GPSST:"));
    assert!(begins_with(b"", b""));
    assert!(closes_with(b"12OK\r\n", b"OK\r\n"));
    assert!(!closes_with(b"OK\r", b"OK\r\n"));
    assert!(closes_with(b"x", b""));
    assert!(stands_at(b"abcabc", b"bc", 4));
    assert!(!stands_at(b"abcabc", b"bc", 3));
    assert!(!stands_at(b"abc", b"", 4));
    assert_eq!(find(b"abcabc", b"bc"), Some(1));
    assert_eq!(find(b"abcabc", b"ca"), Some(2));
    assert_eq!(find(b"abcabc", b"cc"), None);
    assert_eq!(find(b"abc", b""), Some(0));
    assert_eq!(find(b"", b"a"), None);
    assert_eq!(bytes("A\r\n"), b"A\r\n");
}

#[test]
fn number_zero() {
    let mut buf = [b'.'; 3];
    assert_eq!(usize_to_ascii(0, &mut buf), 1);
    assert_eq!(&buf, b"0..");
}

#[test]
fn number_with_several_digits() {
    let mut buf = [b'.'; 6];
    assert_eq!(usize_to_ascii(7680, &mut buf), 4);
    assert_eq!(&buf, b"7680..");
}

#[test]
fn number_that_does_not_fit_keeps_its_leading_digits() {
    let mut buf = [b'.'; 2];
    assert_eq!(usize_to_ascii(768, &mut buf), 2);
    assert_eq!(&buf, b"76");
    let mut none: [u8; 0] = [];
    assert_eq!(usize_to_ascii(768, &mut none), 0);
}

#[test]
fn number_with_the_most_digits() {
    let mut buf = [b'.'; 24];
    let n = usize_to_ascii(u32::MAX as usize, &mut buf);
    assert_eq!(&buf[..n], b"4294967295");
    let n = usize_to_ascii(usize::MAX, &mut buf);
    assert_eq!(&buf[..n], usize::MAX.to_string().as_bytes());
}

#[test]
fn numbers_read_back() {
    for n in [1usize, 9, 10, 99, 100, 105, 768, 1000, 65535, 1_000_000_007] {
        let mut buf = [0u8; 20];
        let len = usize_to_ascii(n, &mut buf);
        let mut value = 0usize;
        for digit in &buf[..len] {
            value = 10 * value + (digit - b'0') as usize;
        }
        assert_eq!(value, n);
        assert_ne!(buf[0], b'0');
    }
}

#[test]
fn deadlines_count_milliseconds() {
    assert_eq!(deadline_after(0, 1), 1000);
    assert_eq!(deadline_after(7, 200), 200_007);
    assert_eq!(deadline_after(123, 0), 123);
    assert_eq!(deadline_after(u64::MAX - 30_000_000, 30_000), u64::MAX);
}

#[test]
fn deadlines_have_to_fit() {
    assert!(fits(0, 30_000));
    assert!(fits(u64::MAX - 30_000_000, 30_000));
    assert!(!fits(u64::MAX - 29_999_999, 30_000));
    assert!(fits(u64::MAX, 0));
    assert!(!fits(0, u64::MAX));
}

#[test]
fn led_flashes_once_a_second() {
    assert_eq!(blink(false), (true, 300));
    assert_eq!(blink(true), (false, 700));
}

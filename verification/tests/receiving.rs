use stm32_4g_gps::rx::{Action, Event, Receiver};

/// One poll at `now`; `None` for no byte, and a flag for the overrun.
fn poll(r: &mut Receiver, now: u64, byte: Option<u8>, ore: bool) {
    let mut action = r.step(Event::Clock { now });
    if let Action::ReadStatus = action {
        action = r.step(Event::Status {
            rxne: byte.is_some(),
            ore,
        });
    }
    if let Action::ReadData = action {
        r.step(Event::Data {
            byte: byte.unwrap_or(b'?'),
        });
    }
}

fn feed(r: &mut Receiver, text: &[u8]) {
    for byte in text {
        poll(r, 0, Some(*byte), false);
    }
}

#[test]
fn marker_ends_the_read() {
    let mut r = Receiver::read_until_marker(b"OK\r\n", true, 256, 0, 2000);
    feed(&mut r, b"+X: 1\r\nOK\r\nmore");
    assert!(r.stopped());
    assert_eq!(r.result(), b"+X: 1\r\nOK\r\n");
}

#[test]
fn marker_read_stops_when_the_room_is_full() {
    let mut r = Receiver::read_until_marker(b"OK\r\n", true, 4, 0, 2000);
    feed(&mut r, b"abcdOK\r\n");
    assert!(r.stopped());
    assert_eq!(r.result(), b"abcd");
}

#[test]
fn marker_read_without_room_has_stopped() {
    let r = Receiver::read_until_marker(b"OK", true, 0, 0, 2000);
    assert!(r.stopped());
    assert!(matches!(r.action(), Action::Done));
    assert_eq!(r.result(), b"");
}

#[test]
fn empty_marker_ends_the_read_with_the_first_byte() {
    let mut r = Receiver::read_until_marker(b"", true, 16, 0, 2000);
    assert!(!r.stopped());
    feed(&mut r, b"xyz");
    assert!(r.stopped());
    assert_eq!(r.result(), b"x");
}

#[test]
fn marker_read_stops_at_the_deadline() {
    let mut r = Receiver::read_until_marker(b"OK", true, 16, 100, 2);
    poll(&mut r, 2099, Some(b'a'), false);
    assert!(!r.stopped());
    poll(&mut r, 2100, Some(b'b'), false);
    assert!(r.stopped());
    poll(&mut r, 2000, Some(b'c'), false);
    assert_eq!(r.result(), b"a");
}

#[test]
fn marker_read_leaves_spoilt_bytes_out() {
    let mut r = Receiver::read_until_marker(b"OK", true, 16, 0, 2000);
    poll(&mut r, 0, Some(b'O'), false);
    poll(&mut r, 0, Some(b'x'), true);
    poll(&mut r, 0, None, true);
    poll(&mut r, 0, Some(b'K'), false);
    assert!(r.stopped());
    assert_eq!(r.result(), b"OK");
}

#[test]
fn overrun_can_be_disregarded() {
    let mut r = Receiver::read_until_marker(b"OK", false, 16, 0, 2000);
    poll(&mut r, 0, Some(b'O'), true);
    poll(&mut r, 0, None, true);
    poll(&mut r, 0, Some(b'K'), true);
    assert!(r.stopped());
    assert_eq!(r.result(), b"OK");
}

#[test]
fn wait_ends_with_its_marker_however_much_comes_before() {
    let mut r = Receiver::wait_for(b"start up success.", 0, 30_000);
    feed(&mut r, &[b's'; 1000]);
    feed(&mut r, b"start up start up success");
    assert!(!r.stopped());
    feed(&mut r, b".");
    assert!(r.stopped());
    assert!(matches!(r.action(), Action::Done));
    assert_eq!(r.result(), b"");
}

#[test]
fn wait_stops_at_its_deadline() {
    let mut r = Receiver::wait_for(b"OK\r\n", 100, 2);
    poll(&mut r, 2099, Some(b'O'), false);
    poll(&mut r, 2099, Some(b'K'), false);
    assert!(!r.stopped());
    poll(&mut r, 2100, Some(b'\r'), false);
    assert!(r.stopped());
    assert_eq!(r.result(), b"");
}

#[test]
fn wait_leaves_spoilt_bytes_out() {
    let mut r = Receiver::wait_for(b"aab", 0, 2000);
    feed(&mut r, b"aaa");
    poll(&mut r, 0, Some(b'x'), true);
    poll(&mut r, 0, None, true);
    assert!(!r.stopped());
    feed(&mut r, b"b");
    assert!(r.stopped());
}

#[test]
fn wait_for_one_byte_and_for_none() {
    let mut r = Receiver::wait_for(b"K", 0, 2000);
    feed(&mut r, b"OO");
    assert!(!r.stopped());
    feed(&mut r, b"K");
    assert!(r.stopped());
    let mut r = Receiver::wait_for(b"", 0, 2000);
    assert!(!r.stopped());
    feed(&mut r, b"x");
    assert!(r.stopped());
}

#[test]
fn data_register_is_read_only_when_a_flag_asks_for_it() {
    let mut r = Receiver::drain_rx(false, 0, 50);
    assert!(matches!(r.action(), Action::ReadClock));
    assert!(matches!(r.step(Event::Clock { now: 1 }), Action::ReadStatus));
    assert!(matches!(
        r.step(Event::Status { rxne: false, ore: true }),
        Action::ReadClock
    ));
    let mut r = Receiver::drain_rx(true, 0, 200);
    r.step(Event::Clock { now: 1 });
    assert!(matches!(
        r.step(Event::Status { rxne: false, ore: true }),
        Action::ReadData
    ));
}

#[test]
fn unexpected_events_change_nothing() {
    let mut r = Receiver::read_until_marker(b"OK", true, 16, 0, 2000);
    assert!(matches!(r.step(Event::Data { byte: b'z' }), Action::ReadClock));
    assert!(matches!(r.step(Event::Written), Action::ReadClock));
    feed(&mut r, b"OK");
    assert_eq!(r.result(), b"OK");
}

#[test]
fn drain_keeps_nothing_and_lasts_to_its_deadline() {
    let mut r = Receiver::drain_rx(true, 0, 200);
    poll(&mut r, 10, Some(b'a'), false);
    poll(&mut r, 20, Some(b'b'), true);
    poll(&mut r, 199_999, Some(b'c'), false);
    assert!(!r.stopped());
    poll(&mut r, 200_000, None, false);
    assert!(r.stopped());
    assert_eq!(r.result(), b"");
}

#[test]
fn first_line_with_the_prefix_is_found() {
    let mut r = Receiver::read_line(b"+GPSST:", 0, 10_000);
    feed(&mut r, b"\r\n$GNRMC,1\r\n\r\n+GPSST: 1,2\r\n+GPSST: 0\r\n");
    assert!(r.stopped());
    assert_eq!(r.result(), b"+GPSST: 1,2");
}

#[test]
fn unfinished_line_is_no_line() {
    let mut r = Receiver::read_line(b"+GPSST:", 0, 10_000);
    feed(&mut r, b"+GPSST: 1,2");
    poll(&mut r, 10_000_000, None, false);
    assert!(r.stopped());
    assert_eq!(r.result(), b"");
}

#[test]
fn prefix_counts_only_at_the_start_of_a_line() {
    let mut r = Receiver::read_line(b"+GPSST:", 0, 10_000);
    feed(&mut r, b"x+GPSST: 1\r\n");
    assert!(!r.stopped());
    assert_eq!(r.result(), b"");
}

#[test]
fn overrun_gives_the_line_up() {
    let mut r = Receiver::read_line(b"+GPSST:", 0, 10_000);
    feed(&mut r, b"+GPSST: 1");
    poll(&mut r, 0, Some(b'2'), true);
    feed(&mut r, b"3\r\n");
    assert!(!r.stopped());
    feed(&mut r, b"+GPSST: 4\n");
    assert!(r.stopped());
    assert_eq!(r.result(), b"+GPSST: 4");
}

#[test]
fn long_line_is_cut() {
    let mut r = Receiver::read_line(b"+GPSST:", 0, 10_000);
    feed(&mut r, b"+GPSST:");
    for _ in 0..300 {
        feed(&mut r, b"7");
    }
    feed(&mut r, b"\r");
    assert!(r.stopped());
    assert_eq!(r.result().len(), 192);
    assert!(r.result().starts_with(b"+GPSST:777"));
}

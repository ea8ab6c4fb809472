use stm32_4g_gps::http::{startup_message, Post};
use stm32_4g_gps::power::PowerPolicy;
use stm32_4g_gps::session::Operation;
use stm32_4g_gps::tracker::{Task, Tracker};

/// One cycle of the power saving; tells whether the receiver was polled.
fn cycle(p: &mut PowerPolicy, fix: bool) -> bool {
    if p.begin_cycle() {
        p.switch_on();
    }
    let polled = p.gps_powered;
    if polled {
        p.observe(fix);
    }
    if p.must_switch_off() {
        p.switch_off();
    }
    polled
}

#[test]
fn power_is_saved_after_three_fixes_in_a_row() {
    let mut p = PowerPolicy::new();
    for fix in [true, true, false, true, true] {
        assert!(cycle(&mut p, fix));
        assert!(!p.power_save_enabled);
        assert!(p.gps_powered);
    }
    assert!(cycle(&mut p, true));
    assert!(p.power_save_enabled);
    assert!(!p.gps_powered);
}

#[test]
fn off_for_two_cycles_and_on_for_one() {
    let mut p = PowerPolicy::new();
    let polled: Vec<bool> = (0..12).map(|_| cycle(&mut p, true)).collect();
    assert_eq!(
        polled,
        [true, true, true, false, false, true, false, false, true, false, false, true]
    );
}

#[test]
fn five_misses_in_a_row_end_the_saving() {
    let mut p = PowerPolicy::new();
    for _ in 0..3 {
        cycle(&mut p, true);
    }
    let mut misses = 0;
    while p.power_save_enabled {
        if cycle(&mut p, false) {
            misses += 1;
        }
    }
    assert_eq!(misses, 5);
    assert!(p.gps_powered);
    assert_eq!(p.gps_track_off_cycles, 0);
    assert!(cycle(&mut p, false));
}

#[test]
fn counters_stay_at_their_largest_value() {
    let mut p = PowerPolicy::new();
    for _ in 0..300 {
        p.observe(true);
    }
    assert_eq!(p.gps_stable_fix_count, 255);
    for _ in 0..300 {
        p.observe(false);
    }
    assert_eq!(p.gps_no_fix_streak, 255);
    assert_eq!(p.gps_stable_fix_count, 0);
}

#[test]
fn startup_messages_in_order() {
    let mut all = Vec::new();
    while let Some((bytes, pause)) = startup_message(all.len()) {
        all.push((String::from_utf8(bytes.to_vec()).unwrap(), pause));
    }
    let expected: [(&str, u64); 6] = [
        ("AT\r\n", 300),
        ("ATE0\r\n", 300),
        ("AT+CFUN=1\r\n", 800),
        ("AT+CGATT=1\r\n", 1500),
        ("AT+QICSGP=1,1,\"\",\"\",\"\"\r\n", 1000),
        ("AT+NETOPEN\r\n", 5000),
    ];
    assert_eq!(all.len(), expected.len());
    for (got, want) in all.iter().zip(expected) {
        assert_eq!((got.0.as_str(), got.1), want);
    }
}

#[test]
fn post_messages_in_order() {
    let payload = [b'p'; 123];
    let post = Post::new(&payload);
    let mut all: Vec<(Vec<u8>, u64)> = Vec::new();
    while let Some((bytes, pause)) = post.message(all.len()) {
        all.push((bytes.to_vec(), pause));
    }
    let expected: [(&[u8], u64); 10] = [
        (b"AT$HTTPOPEN\r\n", 300),
        (b"AT$HTTPPARA=http://test.nightkper.com,80,0,0\r\n", 300),
        (b"AT$HTTPRQH=Content-Length, 123\r\n", 300),
        (b"AT$HTTPACTION=1\r\n", 1000),
        (b"AT$HTTPDATA=123\r\n", 500),
        (&payload, 500),
        (b"AT$HTTPSEND\r\n", 500),
        (b"AT$HTTPDATA=0\r\n", 300),
        (b"AT$HTTPSEND\r\n", 5000),
        (b"AT$HTTPCLOSE\r\n", 1000),
    ];
    assert_eq!(all.len(), expected.len());
    for (got, want) in all.iter().zip(expected) {
        assert_eq!((got.0.as_slice(), got.1), want);
    }
}

#[test]
fn post_of_nothing() {
    let post = Post::new(b"");
    assert_eq!(post.message(2).unwrap().0, b"AT$HTTPRQH=Content-Length, 0\r\n");
    assert_eq!(post.message(4).unwrap().0, b"AT$HTTPDATA=0\r\n");
    assert_eq!(post.message(5).unwrap().0, b"");
}

/// A tracker at the beginning of its first cycle.
fn started() -> Tracker {
    let mut t = Tracker::new();
    assert!(matches!(t.task(), Task::Wait { millis: 1500 }));
    assert!(matches!(t.step(b""), Task::StartUp));
    assert!(matches!(t.step(b""), Task::Run { operation: Operation::Init }));
    assert!(matches!(t.step(b""), Task::Run { operation: Operation::Collect }));
    t
}

/// One cycle up to the next; returns the report and the names of the exchanges.
fn round(t: &mut Tracker, info: &[u8], status: &[u8], card: &[u8]) -> (Vec<u8>, String) {
    let mut names = String::new();
    let mut report = Vec::new();
    loop {
        match t.task() {
            Task::Run { operation: Operation::Collect } => {
                if !report.is_empty() {
                    return (report, names);
                }
                names.push_str("collect ");
                t.step(info);
            }
            Task::Run { operation: Operation::PowerOn } => {
                names.push_str("on ");
                assert!(matches!(t.step(b""), Task::Wait { millis: 15_000 }));
                t.step(b"");
            }
            Task::Run { operation: Operation::Poll } => {
                names.push_str("poll ");
                t.step(status);
            }
            Task::Run { operation: Operation::PowerOff } => {
                names.push_str("off ");
                t.step(b"");
            }
            Task::Run { operation: Operation::ReadIccid } => {
                names.push_str("iccid ");
                t.step(card);
            }
            Task::Post => {
                names.push_str("post");
                report = t.payload().to_vec();
                assert!(matches!(t.step(b""), Task::Wait { millis: 60_000 }));
                t.step(b"");
            }
            _ => unreachable!(),
        }
    }
}

#[test]
fn report_before_the_first_status_line() {
    let mut t = started();
    let (report, names) = round(&mut t, b"I\r\n", b"", b"");
    assert_eq!(report, b"I\r\nGPS_FIX=UNKNOWN\r\nICCID=\r\nGPS_PS=0\r\n");
    assert_eq!(names, "collect on poll post");
}

#[test]
fn reports_over_several_cycles() {
    let mut t = started();
    let card = b"+ICCID: 8986\r\nOK\r\n";
    let (report, names) = round(&mut t, b"", b"+GPSST: 1,a", card);
    assert_eq!(report, b"+GPSST: 1,a\r\nICCID=\r\nGPS_PS=0\r\n");
    assert_eq!(names, "collect on poll post");
    let (report, names) = round(&mut t, b"", b"", card);
    assert_eq!(report, b"+GPSST: 1,a CACHED=1\r\nICCID=\r\nGPS_PS=0\r\n");
    assert_eq!(names, "collect poll post");
    round(&mut t, b"", b"+GPSST: 1,b", card);
    round(&mut t, b"", b"+GPSST: 1,c", card);
    let (report, names) = round(&mut t, b"", b"+GPSST: 1,d", card);
    assert_eq!(report, b"+GPSST: 1,d\r\nICCID=8986\r\nGPS_PS=1\r\n");
    assert_eq!(names, "collect poll off iccid post");
    // The receiver is off for two cycles; the number of the card stays when none is found.
    let (report, names) = round(&mut t, b"", b"+GPSST: 1,e", b"ERROR");
    assert_eq!(report, b"+GPSST: 1,d CACHED=1\r\nICCID=8986\r\nGPS_PS=1\r\n");
    assert_eq!(names, "collect iccid post");
    let (_, names) = round(&mut t, b"", b"+GPSST: 1,f", b"+ICCID: 77");
    assert_eq!(names, "collect iccid post");
    let (report, names) = round(&mut t, b"", b"+GPSST: 1,g", b"");
    assert_eq!(report, b"+GPSST: 1,g\r\nICCID=77\r\nGPS_PS=1\r\n");
    assert_eq!(names, "collect on poll off iccid post");
}

#[test]
fn report_is_cut_to_its_room() {
    let mut t = started();
    let (report, _) = round(&mut t, &[b'i'; 760], b"+GPSST: 0", b"");
    assert_eq!(report.len(), 768);
    assert_eq!(&report[760..], b"+GPSST: ");
}

#[test]
fn post_carries_the_report() {
    let mut t = started();
    t.step(b"I\r\n");
    t.step(b"");
    t.step(b"");
    assert!(matches!(t.step(b"+GPSST: 0"), Task::Post));
    let post = t.post();
    let (body, _) = post.message(5).unwrap();
    assert_eq!(body, b"I\r\n+GPSST: 0\r\nICCID=\r\nGPS_PS=0\r\n");
    let header = format!("AT$HTTPRQH=Content-Length, {}\r\n", body.len());
    assert_eq!(post.message(2).unwrap().0, header.as_bytes());
}

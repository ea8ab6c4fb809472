use stm32_4g_gps::gps::{
    get_iccid, has_fix, init, poll, power_off, power_on, read_iccid, record,
};
use stm32_4g_gps::rx::{Action, Event};
use stm32_4g_gps::session::{Operation, Session, Step};
use stm32_4g_gps::system_info::collect;

/// Runs a session against a modem that answers each command with the next of `answers`, and then
/// stays silent. Returns what was written and what was replied.
fn drive(mut session: Session, answers: &[&[u8]]) -> (Vec<String>, Vec<u8>) {
    let mut written = Vec::new();
    let mut waiting: Vec<u8> = Vec::new();
    let mut now: u64 = 0;
    let mut action = session.action();
    loop {
        let event = match action {
            Action::Write { command } => {
                if let Some(answer) = answers.get(written.len()) {
                    waiting.extend_from_slice(answer);
                }
                written.push(command.to_string());
                Event::Written
            }
            Action::ReadClock => {
                // Time passes only while nothing is waiting.
                if waiting.is_empty() {
                    now += 10_000;
                }
                Event::Clock { now }
            }
            Action::ReadStatus => Event::Status {
                rxne: !waiting.is_empty(),
                ore: false,
            },
            Action::ReadData => Event::Data {
                byte: waiting.remove(0),
            },
            Action::Done => return (written, session.reply().to_vec()),
        };
        assert!(session.admits(event));
        action = session.step(event);
    }
}

#[test]
fn init_sends_its_commands_in_order() {
    let (written, reply) = drive(init(), &[]);
    assert_eq!(
        written,
        [
            "AT+CGDRT=12,1\r\n",
            "AT+CGSETV=12,1\r\n",
            "AT+CGGETV=12\r\n",
            "AT+MGPSGET=ALL,0\r\n",
            "AT+MGPSC=1\r\n",
            "AT+GPSMODE=1\r\n",
            "AT+AGNSSGET=pos.asrmicro.com\r\n",
            "AT+AGNSSSET\r\n",
            "AT+GPSST\r\n",
            "AT+MGPSC=0\r\n",
        ]
    );
    assert_eq!(reply, b"");
}

#[test]
fn power_exchanges() {
    let (written, reply) = drive(power_on(), &[b"OK\r\nstart up success."]);
    assert_eq!(written, ["AT+MGPSC=1\r\n"]);
    assert_eq!(reply, b"");
    let (written, reply) = drive(power_off(), &[b"OK\r\npoweroff success."]);
    assert_eq!(written, ["AT+MGPSC=0\r\n"]);
    assert_eq!(reply, b"");
}

/// One poll at `now` that finds `byte`.
fn poll_byte(session: &mut Session, now: u64, byte: u8) {
    let mut action = session.step(Event::Clock { now });
    if let Action::ReadStatus = action {
        action = session.step(Event::Status { rxne: true, ore: false });
    }
    if let Action::ReadData = action {
        session.step(Event::Data { byte });
    }
}

fn poll_bytes(session: &mut Session, now: u64, text: &[u8]) {
    for byte in text {
        poll_byte(session, now, *byte);
    }
}

/// More bytes than any step keeps.
const NOISE: [u8; 1000] = [b'.'; 1000];

#[test]
fn power_off_waits_through_noise() {
    let mut session = power_off();
    session.step(Event::Written);
    session.step(Event::Clock { now: 0 });
    poll_bytes(&mut session, 0, &NOISE);
    poll_bytes(&mut session, 9_999_999, b"OK\r\nstart up success.\r\npoweroff success");
    assert!(!matches!(session.action(), Action::Done));
    poll_byte(&mut session, 9_999_999, b'.');
    assert!(matches!(session.action(), Action::Done));
    assert_eq!(session.reply(), b"");
}

#[test]
fn power_off_gives_up_after_ten_seconds() {
    let mut session = power_off();
    session.step(Event::Written);
    session.step(Event::Clock { now: 0 });
    poll_bytes(&mut session, 9_999_999, &NOISE);
    assert!(!matches!(session.action(), Action::Done));
    poll_byte(&mut session, 10_000_000, b'.');
    assert!(matches!(session.action(), Action::Done));
}

#[test]
fn power_on_waits_through_noise() {
    let mut session = power_on();
    session.step(Event::Written);
    session.step(Event::Clock { now: 0 });
    poll_bytes(&mut session, 0, b"\r\nOK\r\n");
    // Noise, and then the report.
    session.step(Event::Clock { now: 0 });
    poll_bytes(&mut session, 0, &NOISE);
    poll_bytes(&mut session, 29_999_999, b"OK\r\nstart up success");
    assert!(!matches!(session.action(), Action::Done));
    poll_byte(&mut session, 29_999_999, b'.');
    assert!(matches!(session.action(), Action::Done));
    assert_eq!(session.reply(), b"");
}

#[test]
fn power_on_goes_on_when_the_answer_fills_the_room() {
    let mut session = power_on();
    session.step(Event::Written);
    session.step(Event::Clock { now: 0 });
    poll_bytes(&mut session, 0, &NOISE[..127]);
    // Still reading past the answer: its time runs out after two seconds.
    assert!(session.admits(Event::Clock { now: u64::MAX }));
    poll_byte(&mut session, 0, b'.');
    // The next step starts with the clock, and has thirty seconds.
    assert!(!session.admits(Event::Clock { now: u64::MAX }));
    session.step(Event::Clock { now: 0 });
    poll_bytes(&mut session, 29_999_999, b"start up success.");
    assert!(matches!(session.action(), Action::Done));
}

#[test]
fn power_on_gives_up_after_both_waits() {
    let mut session = power_on();
    session.step(Event::Written);
    session.step(Event::Clock { now: 0 });
    poll_bytes(&mut session, 1_999_999, &NOISE[..127]);
    session.step(Event::Clock { now: 2_000_000 });
    session.step(Event::Clock { now: 2_000_000 });
    poll_bytes(&mut session, 31_999_999, &NOISE);
    assert!(!matches!(session.action(), Action::Done));
    session.step(Event::Clock { now: 32_000_000 });
    assert!(matches!(session.action(), Action::Done));
}

#[test]
fn init_reads_past_an_answer_that_fills_the_room() {
    let mut session = init();
    session.step(Event::Clock { now: 0 });
    session.step(Event::Clock { now: 200_000 });
    for _ in 0..3 {
        assert!(matches!(session.action(), Action::Write { .. }));
        session.step(Event::Written);
    }
    session.step(Event::Clock { now: 200_000 });
    poll_bytes(&mut session, 200_000, &NOISE[..255]);
    assert!(matches!(session.action(), Action::ReadClock));
    poll_byte(&mut session, 200_000, b'.');
    assert!(matches!(session.action(), Action::Write { command: "AT+MGPSGET=ALL,0\r\n" }));
    session.step(Event::Written);
    session.step(Event::Clock { now: 200_000 });
    poll_bytes(&mut session, 200_000, b"\r\nOK\r\n");
    assert!(matches!(session.action(), Action::Write { command: "AT+MGPSC=1\r\n" }));
}

#[test]
fn init_sets_the_mode_only_after_the_start_report() {
    let mut session = init();
    let mut now: u64 = 0;
    let mut written = Vec::new();
    // Up to the command that switches the receiver on; every wait runs out.
    while !written.contains(&"AT+MGPSC=1\r\n") {
        let event = match session.action() {
            Action::Write { command } => {
                written.push(command);
                Event::Written
            }
            Action::ReadClock => {
                now += 1_000_000;
                Event::Clock { now }
            }
            Action::ReadStatus => Event::Status { rxne: false, ore: false },
            Action::ReadData | Action::Done => unreachable!(),
        };
        session.step(event);
    }
    session.step(Event::Clock { now });
    poll_bytes(&mut session, now, b"\r\nOK\r\n");
    session.step(Event::Clock { now });
    poll_bytes(&mut session, now, &NOISE);
    poll_bytes(&mut session, now + 29_999_999, b"start up success");
    // Still in the wait: bytes are polled for, long after a drain would have ended.
    assert!(matches!(session.action(), Action::ReadClock));
    poll_byte(&mut session, now + 29_999_999, b'.');
    // The wait is over, and the drain that follows it runs.
    let late = now + 29_999_999;
    session.step(Event::Clock { now: late });
    assert!(matches!(session.step(Event::Clock { now: late + 199_999 }), Action::ReadStatus));
    session.step(Event::Status { rxne: false, ore: false });
    assert!(matches!(
        session.step(Event::Clock { now: late + 200_000 }),
        Action::Write { command: "AT+GPSMODE=1\r\n" }
    ));
}

#[test]
fn poll_replies_with_the_status_line() {
    let (written, reply) = drive(poll(), &[b"\r\n$GNGGA,\r\n+GPSST: 1,113.9,22.5\r\nOK\r\n"]);
    assert_eq!(written, ["AT+GPSST\r\n"]);
    assert_eq!(reply, b"+GPSST: 1,113.9,22.5");
}

#[test]
fn poll_without_an_answer_replies_with_nothing() {
    let (_, reply) = drive(poll(), &[b"\r\nERROR\r\n"]);
    assert_eq!(reply, b"");
}

#[test]
fn iccid_exchange_keeps_the_whole_reply() {
    let (written, reply) = drive(read_iccid(), &[b"\r\n+ICCID: 8986\r\n\r\nOK\r\nlate"]);
    assert_eq!(written, ["AT+ICCID\r\n"]);
    assert_eq!(reply, b"\r\n+ICCID: 8986\r\n\r\nOK\r\n");
}

#[test]
fn iccid_exchange_ends_when_the_room_is_full() {
    let (_, reply) = drive(read_iccid(), &[&NOISE[..127]]);
    assert_eq!(reply, &NOISE[..127]);
    let (_, reply) = drive(read_iccid(), &[&NOISE]);
    assert_eq!(reply, &NOISE[..128]);
}

#[test]
fn collect_joins_the_responses() {
    let (written, reply) = drive(
        collect(),
        &[b"M1\r\nOK\r\n", b"+ICCID: 1\r\nOK\r\n", b"+CSQ: 2\r\nOK\r\n", b"+CCLK: 3\r\nOK\r\n"],
    );
    assert_eq!(written, ["ATI\r\n", "AT+ICCID\r\n", "AT+CSQ\r\n", "AT+CCLK?\r\n"]);
    assert_eq!(
        reply,
        b"M1\r\nOK\r\n+ICCID: 1\r\nOK\r\n+CSQ: 2\r\nOK\r\n+CCLK: 3\r\nOK\r\n"
    );
}

#[test]
fn collect_keeps_what_came_before_the_time_was_over() {
    let (_, reply) = drive(collect(), &[b"M1\r\nOK\r\n", b"no end", b"", b"+CCLK: 3\r\nOK\r\n"]);
    assert_eq!(reply, b"M1\r\nOK\r\nno end+CCLK: 3\r\nOK\r\n");
}

#[test]
fn collect_cuts_each_response() {
    let long = [b'x'; 400];
    let (_, reply) = drive(collect(), &[&long, &long, &long, &long]);
    assert_eq!(reply.len(), 768);
}

#[test]
fn steps_of_a_script() {
    assert!(matches!(
        Operation::Poll.step_at(2),
        Some(Step::ReadLine { prefix: "+GPSST:", millis: 10_000 })
    ));
    assert!(Operation::Poll.step_at(3).is_none());
    assert!(matches!(
        Operation::Init.step_at(9),
        Some(Step::WaitFor { marker: "start up success.", millis: 30_000 })
    ));
    assert!(matches!(
        Operation::PowerOn.step_at(1),
        Some(Step::SkipPast { marker: "OK\r\n", room: 128, millis: 2000 })
    ));
    assert!(matches!(
        Operation::Init.step_at(8),
        Some(Step::SkipPast { marker: "OK\r\n", room: 256, millis: 2000 })
    ));
    assert!(matches!(
        Operation::Init.step_at(14),
        Some(Step::SkipPast { marker: "AGPS download success.", room: 256, millis: 30_000 })
    ));
    assert!(matches!(
        Operation::Init.step_at(20),
        Some(Step::WaitFor { marker: "poweroff success.", millis: 10_000 })
    ));
    assert!(matches!(
        Operation::PowerOff.step_at(1),
        Some(Step::WaitFor { marker: "poweroff success.", millis: 10_000 })
    ));
    assert!(matches!(
        Operation::ReadIccid.step_at(2),
        Some(Step::ReadUntil { marker: "OK\r\n", heeds_overrun: true, room: 128, millis: 3000 })
    ));
    assert!(matches!(
        Operation::Collect.step_at(0),
        Some(Step::Drain { heeds_overrun: false, millis: 50 })
    ));
}

#[test]
fn done_is_final_for_a_session() {
    let mut session = Operation::PowerOff.begin();
    session.step(Event::Written);
    session.step(Event::Clock { now: 0 });
    session.step(Event::Clock { now: 10_000_000 });
    assert!(matches!(session.action(), Action::Done));
    assert!(matches!(session.step(Event::Clock { now: 1 }), Action::Done));
    assert!(matches!(session.step(Event::Written), Action::Done));
}

#[test]
fn a_read_has_to_end_before_the_clock_runs_out() {
    let session = poll();
    assert!(session.admits(Event::Clock { now: u64::MAX - 200_000 }));
    assert!(!session.admits(Event::Clock { now: u64::MAX - 199_999 }));
    assert!(session.admits(Event::Written));
}

#[test]
fn record_of_a_line() {
    let rec = record(b"+GPSST: 1");
    assert!(rec.has_data);
    assert_eq!(rec.gpsst_len, 9);
    assert_eq!(&rec.gpsst[..9], b"+GPSST: 1");
    assert!(rec.gpsst[9..].iter().all(|b| *b == 0));
}

#[test]
fn record_of_nothing() {
    let rec = record(b"");
    assert!(!rec.has_data);
    assert_eq!(rec.gpsst_len, 0);
    assert_eq!(rec.gpsst, [0u8; 192]);
}

#[test]
fn record_of_too_much() {
    let rec = record(&[b'a'; 200]);
    assert!(rec.has_data);
    assert_eq!(rec.gpsst_len, 192);
}

fn iccid_text(reply: &[u8]) -> Vec<u8> {
    let (digits, len) = get_iccid(reply);
    assert!(digits[len..].iter().all(|b| *b == 0));
    digits[..len].to_vec()
}

#[test]
fn iccid_is_found() {
    assert_eq!(iccid_text(b"\r\n+ICCID: 89860012\r\n\r\nOK\r\n"), b"89860012");
    assert_eq!(iccid_text(b"+ICCID:\t \"8986\"9"), b"8986");
    assert_eq!(iccid_text(b"7 +ICCID: 12 34"), b"12");
}

#[test]
fn iccid_is_missing() {
    assert_eq!(iccid_text(b"ERROR 12\r\n"), b"");
    assert_eq!(iccid_text(b"+ICCID: none\r\n"), b"");
    assert_eq!(iccid_text(b"+ICCID:"), b"");
    assert_eq!(iccid_text(b""), b"");
}

#[test]
fn iccid_is_cut() {
    assert_eq!(
        iccid_text(b"+ICCID: 123456789012345678901234567890"),
        b"123456789012345678901234"
    );
}

#[test]
fn fixes_are_told() {
    assert!(has_fix(b"+GPSST: 1,113.9"));
    assert!(has_fix(b"+GPSST:   2"));
    assert!(!has_fix(b"+GPSST: 0,"));
    assert!(!has_fix(b"+GPSST:    0"));
    assert!(!has_fix(b"+GPSST: "));
    assert!(!has_fix(b"+GPSST:1,113.9"));
    assert!(!has_fix(b""));
    assert!(has_fix(b"+GPSST:\0"));
    // The first colon counts.
    assert!(!has_fix(b"a:0 +GPSST: 1"));
}

//! What is sent to the modem at start-up and to post a report: texts, each with a pause behind it.

use vstd::arithmetic::power::pow;
use vstd::prelude::*;
use vstd::string::*;

use crate::system_info::{
    decimal, decimal_len, decimal_reads_back, decimal_value, usize_digits, usize_to_ascii,
};
use crate::text::{append_bytes, ascii_text, bytes, text};

verus! {

/// A text for the modem, and the pause behind it in milliseconds.
pub struct Message {
    pub bytes: Seq<u8>,
    pub pause: u64,
}

/// A message with a fixed text.
pub open spec fn fixed(command: &str, pause: u64) -> Message {
    Message { bytes: text(command), pause }
}

/// What the modem needs at start-up: attention, no echo, full function, attachment to the network,
/// access point, open socket service.
pub open spec fn startup_messages() -> Seq<Message> {
    seq![
        fixed("AT\r\n", 300),
        fixed("ATE0\r\n", 300),
        fixed("AT+CFUN=1\r\n", 800),
        fixed("AT+CGATT=1\r\n", 1500),
        fixed("AT+QICSGP=1,1,\"\",\"\",\"\"\r\n", 1000),
        fixed("AT+NETOPEN\r\n", 5000),
    ]
}

/// The start-up message at `index`, if there are that many.
pub fn startup_message(index: usize) -> (r: Option<(&'static [u8], u64)>)
    ensures
        index >= startup_messages().len() ==> r is None,
        index < startup_messages().len() ==> {
            &&& r matches Some((bytes, pause))
            &&& bytes@ == startup_messages()[index as int].bytes
            &&& pause == startup_messages()[index as int].pause
        },
{
    match index {
        0 => Some((bytes("AT\r\n"), 300)),
        1 => Some((bytes("ATE0\r\n"), 300)),
        2 => Some((bytes("AT+CFUN=1\r\n"), 800)),
        3 => Some((bytes("AT+CGATT=1\r\n"), 1500)),
        4 => Some((bytes("AT+QICSGP=1,1,\"\",\"\",\"\"\r\n"), 1000)),
        5 => Some((bytes("AT+NETOPEN\r\n"), 5000)),
        _ => None,
    }
}

/// The header that announces a body of `n` bytes.
pub open spec fn content_length_command(n: nat) -> Seq<u8> {
    text("AT$HTTPRQH=Content-Length, ") + decimal(n) + text("\r\n")
}

/// The command after which the modem takes `n` bytes of body.
pub open spec fn data_command(n: nat) -> Seq<u8> {
    text("AT$HTTPDATA=") + decimal(n) + text("\r\n")
}

/// The whole of a post of `payload`.
pub open spec fn post_messages(payload: Seq<u8>) -> Seq<Message> {
    seq![
        fixed("AT$HTTPOPEN\r\n", 300),
        fixed("AT$HTTPPARA=http://test.nightkper.com,80,0,0\r\n", 300),
        Message { bytes: content_length_command(payload.len()), pause: 300 },
        fixed("AT$HTTPACTION=1\r\n", 1000),
        Message { bytes: data_command(payload.len()), pause: 500 },
        Message { bytes: payload, pause: 500 },
        fixed("AT$HTTPSEND\r\n", 500),
        fixed("AT$HTTPDATA=0\r\n", 300),
        fixed("AT$HTTPSEND\r\n", 5000),
        fixed("AT$HTTPCLOSE\r\n", 1000),
    ]
}

/// A post announces its body twice, and each time with the number of bytes that it then sends: the
/// digits in both commands read back as the length of the payload.
pub proof fn announces_the_length(payload: Seq<u8>)
    ensures
        exists|digits: Seq<u8>|
            {
                &&& #[trigger] decimal_value(digits) == payload.len()
                &&& post_messages(payload)[2].bytes == text("AT$HTTPRQH=Content-Length, ") + digits
                    + text("\r\n")
                &&& post_messages(payload)[4].bytes == text("AT$HTTPDATA=") + digits + text("\r\n")
                &&& post_messages(payload)[5].bytes == payload
            },
{
    decimal_reads_back(payload.len());
    assert(decimal_value(decimal(payload.len())) == payload.len());
}

/// The digits in both commands that announce the length are those of the length alone, without
/// leading zeros, so that there is only one way to write them.
pub proof fn announces_in_digits(payload: Seq<u8>)
    ensures
        exists|digits: Seq<u8>|
            {
                &&& #[trigger] decimal_value(digits) == payload.len()
                &&& digits.len() > 0
                &&& forall|k: int| 0 <= k < digits.len() ==> 48 <= #[trigger] digits[k] <= 57
                &&& digits[0] == 48 ==> digits.len() == 1
                &&& post_messages(payload)[2].bytes == text("AT$HTTPRQH=Content-Length, ") + digits
                    + text("\r\n")
                &&& post_messages(payload)[4].bytes == text("AT$HTTPDATA=") + digits + text("\r\n")
            },
{
    decimal_reads_back(payload.len());
    let digits = decimal(payload.len());
    assert(decimal_value(digits) == payload.len());
    if payload.len() == 0 {
        assert(digits.len() == 1);
    }
}

/// A post goes the same way whatever the report is, and however long. Ten messages are sent. The
/// connection is opened, the address given, the length announced, the action chosen, and the body
/// announced. The body comes next, and is sent off right behind it. Then the end of the data is
/// told, and sent off too. The connection is closed at the very end.
pub proof fn posts_in_order(payload: Seq<u8>)
    ensures
        ({
            let m = post_messages(payload);
            &&& m.len() == 10
            &&& m[0].bytes == text("AT$HTTPOPEN\r\n") && m[0].pause == 300
            &&& m[1].bytes == text("AT$HTTPPARA=http://test.nightkper.com,80,0,0\r\n")
            &&& m[1].pause == 300
            &&& text("AT$HTTPRQH=Content-Length, ").is_prefix_of(m[2].bytes) && m[2].pause == 300
            &&& m[3].bytes == text("AT$HTTPACTION=1\r\n") && m[3].pause == 1000
            &&& text("AT$HTTPDATA=").is_prefix_of(m[4].bytes) && m[4].pause == 500
            &&& m[5].bytes == payload && m[5].pause == 500
            &&& m[6].bytes == text("AT$HTTPSEND\r\n") && m[6].pause == 500
            &&& m[7].bytes == text("AT$HTTPDATA=0\r\n") && m[7].pause == 300
            &&& m[8].bytes == text("AT$HTTPSEND\r\n") && m[8].pause == 5000
            &&& m[9].bytes == text("AT$HTTPCLOSE\r\n") && m[9].pause == 1000
        }),
{
    let m = post_messages(payload);
    assert(text("AT$HTTPRQH=Content-Length, ").is_prefix_of(m[2].bytes));
    assert(text("AT$HTTPDATA=").is_prefix_of(m[4].bytes));
}

/// Two posts differ in nothing but the report and its length.
pub proof fn posts_differ_in_the_report_alone(a: Seq<u8>, b: Seq<u8>)
    ensures
        post_messages(a).len() == post_messages(b).len(),
        forall|i: int|
            0 <= i < post_messages(a).len() ==> (#[trigger] post_messages(a)[i]).pause
                == post_messages(b)[i].pause,
        forall|i: int|
            0 <= i < post_messages(a).len() && i != 2 && i != 4 && i != 5
                ==> #[trigger] post_messages(a)[i] == post_messages(b)[i],
        a.len() == b.len() ==> post_messages(a)[2] == post_messages(b)[2] && post_messages(a)[4]
            == post_messages(b)[4],
{
}

/// The connection is closed once and last: no other message of the post's own is the command that
/// closes it.
pub proof fn closes_once_and_last(payload: Seq<u8>, i: int)
    requires
        0 <= i < post_messages(payload).len(),
        i != 5,
    ensures
        post_messages(payload)[i].bytes == text("AT$HTTPCLOSE\r\n") <==> i
            == post_messages(payload).len() - 1,
{
    reveal_strlit("AT$HTTPCLOSE\r\n");
    reveal_strlit("AT$HTTPOPEN\r\n");
    reveal_strlit("AT$HTTPPARA=http://test.nightkper.com,80,0,0\r\n");
    reveal_strlit("AT$HTTPRQH=Content-Length, ");
    reveal_strlit("AT$HTTPACTION=1\r\n");
    reveal_strlit("AT$HTTPDATA=");
    reveal_strlit("AT$HTTPSEND\r\n");
    reveal_strlit("AT$HTTPDATA=0\r\n");
    ascii_text("AT$HTTPCLOSE\r\n");
    ascii_text("AT$HTTPOPEN\r\n");
    ascii_text("AT$HTTPPARA=http://test.nightkper.com,80,0,0\r\n");
    ascii_text("AT$HTTPRQH=Content-Length, ");
    ascii_text("AT$HTTPACTION=1\r\n");
    ascii_text("AT$HTTPDATA=");
    ascii_text("AT$HTTPSEND\r\n");
    ascii_text("AT$HTTPDATA=0\r\n");
    let close = text("AT$HTTPCLOSE\r\n");
    let bytes = post_messages(payload)[i].bytes;
    assert(close[7] == 'C' as u8);
    if i != 9 {
        assert(bytes[7] != close[7]);
    }
}

/// At start-up the modem is called, its echo turned off, its functions turned on; it is attached to
/// the network, given an access point, and its socket service opened, in this order and with these
/// pauses.
pub proof fn starts_the_modem_in_order()
    ensures
        ({
            let m = startup_messages();
            &&& m.len() == 6
            &&& m[0].bytes == text("AT\r\n") && m[0].pause == 300
            &&& m[1].bytes == text("ATE0\r\n") && m[1].pause == 300
            &&& m[2].bytes == text("AT+CFUN=1\r\n") && m[2].pause == 800
            &&& m[3].bytes == text("AT+CGATT=1\r\n") && m[3].pause == 1500
            &&& m[4].bytes == text("AT+QICSGP=1,1,\"\",\"\",\"\"\r\n") && m[4].pause == 1000
            &&& m[5].bytes == text("AT+NETOPEN\r\n") && m[5].pause == 5000
        }),
{
}

/// Writes `prefix`, `n` in decimal and a line end to `buf`, and returns the length.
fn numbered_command(prefix: &str, n: usize, buf: &mut [u8]) -> (len: usize)
    requires
        text(prefix).len() + decimal(n as nat).len() + text("\r\n").len() <= old(buf)@.len(),
    ensures
        final(buf)@.len() == old(buf)@.len(),
        len <= final(buf)@.len(),
        final(buf)@.take(len as int) == text(prefix) + decimal(n as nat) + text("\r\n"),
{
    let mut digits = [0u8; 20];
    let count: usize = usize_to_ascii(n, &mut digits);
    proof {
        usize_digits(n);
    }
    let mut len: usize = 0;
    append_bytes(buf, &mut len, bytes(prefix));
    append_bytes(buf, &mut len, &digits[0..count]);
    append_bytes(buf, &mut len, bytes("\r\n"));
    len
}

/// A post in progress.
pub struct Post<'a> {
    payload: &'a [u8],
    content_length: [u8; 48],
    content_length_len: usize,
    data: [u8; 24],
    data_len: usize,
}

impl<'a> View for Post<'a> {
    type V = Seq<u8>;

    /// The payload.
    closed spec fn view(&self) -> Seq<u8> {
        self.payload@
    }
}

impl<'a> Post<'a> {
    /// The two commands with a number announce the length of the payload.
    pub closed spec fn wf(&self) -> bool {
        &&& self.content_length_len <= 48
        &&& self.content_length@.take(self.content_length_len as int) == content_length_command(
            self.payload@.len(),
        )
        &&& self.data_len <= 24
        &&& self.data@.take(self.data_len as int) == data_command(self.payload@.len())
    }

    /// A post of `payload`, whose length is to have at most ten digits.
    pub fn new(payload: &'a [u8]) -> (r: Post<'a>)
        requires
            payload@.len() < 10_000_000_000,
        ensures
            r.wf(),
            r@ == payload@,
    {
        proof {
            reveal_strlit("AT$HTTPRQH=Content-Length, ");
            reveal_strlit("AT$HTTPDATA=");
            reveal_strlit("\r\n");
            ascii_text("AT$HTTPRQH=Content-Length, ");
            ascii_text("AT$HTTPDATA=");
            ascii_text("\r\n");
            assert(pow(10, 10) == 10_000_000_000) by {
                reveal_with_fuel(pow, 11);
            }
            decimal_len(payload@.len(), 10);
        }
        let n: usize = payload.len();
        let mut content_length = [0u8; 48];
        let content_length_len: usize = numbered_command(
            "AT$HTTPRQH=Content-Length, ",
            n,
            &mut content_length,
        );
        let mut data = [0u8; 24];
        let data_len: usize = numbered_command("AT$HTTPDATA=", n, &mut data);
        Post { payload, content_length, content_length_len, data, data_len }
    }

    /// The message at `index`, if there are that many.
    pub fn message(&self, index: usize) -> (r: Option<(&[u8], u64)>)
        requires
            self.wf(),
        ensures
            index >= post_messages(self@).len() ==> r is None,
            index < post_messages(self@).len() ==> {
                &&& r matches Some((bytes, pause))
                &&& bytes@ == post_messages(self@)[index as int].bytes
                &&& pause == post_messages(self@)[index as int].pause
            },
    {
        match index {
            0 => Some((bytes("AT$HTTPOPEN\r\n"), 300)),
            1 => Some((bytes("AT$HTTPPARA=http://test.nightkper.com,80,0,0\r\n"), 300)),
            2 => Some((&self.content_length[0..self.content_length_len], 300)),
            3 => Some((bytes("AT$HTTPACTION=1\r\n"), 1000)),
            4 => Some((&self.data[0..self.data_len], 500)),
            5 => Some((self.payload, 500)),
            6 => Some((bytes("AT$HTTPSEND\r\n"), 500)),
            7 => Some((bytes("AT$HTTPDATA=0\r\n"), 300)),
            8 => Some((bytes("AT$HTTPSEND\r\n"), 5000)),
            9 => Some((bytes("AT$HTTPCLOSE\r\n"), 1000)),
            _ => None,
        }
    }
}

} // verus!

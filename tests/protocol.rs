use std::collections::VecDeque;

use up2stream_uart::protocol::{classify, Feed, ReplyParser, Symbol};
use up2stream_uart::{Error, LinkError, SerialLink, Up2Stream, RESPONSE_CAPACITY, SEND_ATTEMPTS};

/// A link that answers reads from a script, then would block forever.
struct ScriptLink {
    reads: VecDeque<Result<u8, LinkError>>,
    written: Vec<u8>,
    flushes: usize,
    refuse_write_at: Option<usize>,
    refuse_flush: bool,
    busy_per_byte: usize,
    busy_left: usize,
}

impl ScriptLink {
    fn new() -> Self {
        ScriptLink {
            reads: VecDeque::new(),
            written: Vec::new(),
            flushes: 0,
            refuse_write_at: None,
            refuse_flush: false,
            busy_per_byte: 0,
            busy_left: 0,
        }
    }

    fn bytes(mut self, b: &[u8]) -> Self {
        self.reads.extend(b.iter().map(|&c| Ok(c)));
        self
    }

    fn silence(mut self, n: usize) -> Self {
        self.reads.extend((0..n).map(|_| Err(LinkError::WouldBlock)));
        self
    }
}

impl SerialLink for ScriptLink {
    fn read_byte(&mut self) -> Result<u8, LinkError> {
        self.reads.pop_front().unwrap_or(Err(LinkError::WouldBlock))
    }

    fn write_byte(&mut self, byte: u8) -> Result<(), LinkError> {
        if self.busy_left > 0 {
            self.busy_left -= 1;
            return Err(LinkError::WouldBlock);
        }
        self.busy_left = self.busy_per_byte;
        if self.refuse_write_at == Some(self.written.len()) {
            self.written.push(byte);
            return Err(LinkError::Fault);
        }
        self.written.push(byte);
        Ok(())
    }

    fn flush(&mut self) -> Result<(), LinkError> {
        self.flushes += 1;
        if self.refuse_flush {
            Err(LinkError::Fault)
        } else {
            Ok(())
        }
    }
}

fn query(link: ScriptLink, budget: u32) -> (Result<String, Error>, Up2Stream<ScriptLink>) {
    let mut d = Up2Stream::with_poll_budget(link, budget);
    let r = d.send_query("CMD").map(|s| s.as_str().to_string());
    (r, d)
}

#[test]
fn round_trip_framing() {
    let mut d = Up2Stream::new(ScriptLink::new());
    d.send_command("VOL", b"49").unwrap();
    d.send_command("POP", b"").unwrap();
    d.send_command("SYS", b"REBOOT").unwrap();
    let link = d.into_link();
    assert_eq!(link.written, b";VOL:49;POP;SYS:REBOOT;".to_vec());
    assert_eq!(link.flushes, 0);
}

#[test]
fn noise_before_reply_is_skipped() {
    let (r, d) = query(ScriptLink::new().bytes(b"42;\n\rMD:off;CMD:on;"), 100);
    assert_eq!(r, Ok("on".to_string()));
    assert_eq!(d.into_link().written, b";CMD;".to_vec());
}

#[test]
fn would_block_between_every_byte() {
    let mut link = ScriptLink::new().silence(7);
    for &b in b"42;\n\rCMD:on;" {
        link = link.bytes(&[b]).silence(3);
    }
    let (r, d) = query(link, 1000);
    assert_eq!(r, Ok("on".to_string()));
    assert_eq!(d.into_link().written, b";CMD;".to_vec());
}

#[test]
fn silence_times_out_after_every_send() {
    let (r, d) = query(ScriptLink::new(), 5);
    assert_eq!(r, Err(Error::Timeout));
    let link = d.into_link();
    assert_eq!(link.written, b";CMD;CMD;CMD;".to_vec());
    assert_eq!(link.flushes, SEND_ATTEMPTS as usize);
}

#[test]
fn missed_reply_is_resent() {
    let link = ScriptLink::new().silence(7).bytes(b"CMD:ok;");
    let (r, d) = query(link, 7);
    assert_eq!(r, Ok("ok".to_string()));
    assert_eq!(d.into_link().written, b";CMD;CMD;".to_vec());
}

#[test]
fn reply_cut_short_after_the_echo_times_out() {
    let link = ScriptLink::new().bytes(b"CMD:o").silence(20).bytes(b"CMD:ok;");
    let (r, d) = query(link, 7);
    assert_eq!(r, Err(Error::Timeout));
    assert_eq!(d.into_link().written, b";CMD;".to_vec());
}

#[test]
fn silence_before_echo_does_not_eat_the_reply_budget() {
    let link = ScriptLink::new().silence(1).bytes(b"CMD:on;");
    let (r, d) = query(link, 7);
    assert_eq!(r, Ok("on".to_string()));
    assert_eq!(d.into_link().written, b";CMD;".to_vec());

    let link = ScriptLink::new().silence(4).bytes(b"CMD:on;");
    let (r, _) = query(link, 7);
    assert_eq!(r, Ok("on".to_string()));
}

#[test]
fn busy_writes_are_retried() {
    let mut link = ScriptLink::new().bytes(b"CMD:on;");
    link.busy_per_byte = 2;
    link.busy_left = 2;
    let (r, d) = query(link, 5);
    assert_eq!(r, Ok("on".to_string()));
    assert_eq!(d.into_link().written, b";CMD;".to_vec());

    let mut link = ScriptLink::new();
    link.busy_per_byte = 2;
    let mut d = Up2Stream::with_poll_budget(link, 2);
    assert_eq!(d.send_command("VOL", b"49"), Ok(()));
    assert_eq!(d.into_link().written, b";VOL:49;".to_vec());
}

#[test]
fn endless_busy_write_fails_the_send() {
    let mut link = ScriptLink::new();
    link.busy_per_byte = 3;
    let mut d = Up2Stream::with_poll_budget(link, 2);
    assert_eq!(d.send_command("VOL", b"49"), Err(Error::SendCommand));
    assert_eq!(d.into_link().written, b";".to_vec());
}

#[test]
fn parameter_list_is_kept_verbatim() {
    let (r, _) = query(ScriptLink::new().bytes(b"CMD:BT,1,456,PARA;"), 100);
    assert_eq!(r, Ok("BT,1,456,PARA".to_string()));
}

#[test]
fn broken_echo_is_not_retried() {
    let (r, d) = query(ScriptLink::new().bytes(b"CMDX;CMD:on;"), 100);
    assert_eq!(r, Err(Error::ParseResponse));
    assert_eq!(d.into_link().written, b";CMD;".to_vec());
}

#[test]
fn same_script_same_reply() {
    let link = ScriptLink::new().bytes(b"CMD:abcdef;").bytes(b"CMD:on;").bytes(b"CMD:on;");
    let mut d = Up2Stream::new(link);
    assert_eq!(d.send_query("CMD").unwrap().as_str(), "abcdef");
    let first = d.send_query("CMD").unwrap();
    let second = d.send_query("CMD").unwrap();
    assert_eq!(first.as_str(), "on");
    assert_eq!(second.as_str(), "on");
}

#[test]
fn mismatch_restarts_the_echo() {
    let (r, _) = query(ScriptLink::new().bytes(b"CXMD:no;CMD:ok;"), 100);
    assert_eq!(r, Ok("ok".to_string()));
}

#[test]
fn empty_parameter_list() {
    let (r, _) = query(ScriptLink::new().bytes(b"CMD:;"), 100);
    assert_eq!(r, Ok(String::new()));
}

#[test]
fn longest_reply_fits_and_one_more_does_not() {
    let mut full = b"CMD:".to_vec();
    full.extend(std::iter::repeat(b'7').take(RESPONSE_CAPACITY));
    full.push(b';');
    let (r, _) = query(ScriptLink::new().bytes(&full), 5000);
    assert_eq!(r.map(|s| s.len()), Ok(RESPONSE_CAPACITY));

    let mut over = b"CMD:".to_vec();
    over.extend(std::iter::repeat(b'7').take(RESPONSE_CAPACITY + 1));
    over.push(b';');
    let (r, d) = query(ScriptLink::new().bytes(&over), 5000);
    assert_eq!(r, Err(Error::ResponseTooLong));
    assert_eq!(d.into_link().written, b";CMD;".to_vec());
}

#[test]
fn unknown_byte_is_a_read_error() {
    let (r, _) = query(ScriptLink::new().bytes(b"CMD:o!;"), 100);
    assert_eq!(r, Err(Error::Read));
    let (r, _) = query(ScriptLink::new().bytes(b"hello world"), 100);
    assert_eq!(r, Err(Error::Read));
}

#[test]
fn link_fault_is_a_read_error() {
    let mut link = ScriptLink::new().bytes(b"CM");
    link.reads.push_back(Err(LinkError::Fault));
    let (r, d) = query(link, 100);
    assert_eq!(r, Err(Error::Read));
    assert_eq!(d.into_link().written, b";CMD;".to_vec());
}

#[test]
fn control_byte_inside_parameters_is_ill_formed() {
    let (r, _) = query(ScriptLink::new().bytes(b"CMD:o\nn;"), 100);
    assert_eq!(r, Err(Error::IllFormedReponse));
}

#[test]
fn refused_write_fails_the_send() {
    let mut link = ScriptLink::new();
    link.refuse_write_at = Some(3);
    let mut d = Up2Stream::new(link);
    assert_eq!(d.send_command("VOL", b"49"), Err(Error::SendCommand));
    assert_eq!(d.into_link().written, b";VOL".to_vec());

    let mut link = ScriptLink::new().bytes(b"CMD:on;");
    link.refuse_write_at = Some(2);
    let (r, d) = query(link, 100);
    assert_eq!(r, Err(Error::SendCommand));
    assert_eq!(d.into_link().written, b";CM".to_vec());
}

#[test]
fn refused_flush_fails_the_query() {
    let mut link = ScriptLink::new().bytes(b"CMD:on;");
    link.refuse_flush = true;
    let (r, d) = query(link, 100);
    assert_eq!(r, Err(Error::SendCommand));
    assert_eq!(d.into_link().flushes, 1);
}

#[test]
fn symbols_of_bytes() {
    assert_eq!(classify(Ok(b'a')), Ok(Symbol::Character(b'a')));
    assert_eq!(classify(Ok(b'-')), Ok(Symbol::Character(b'-')));
    assert_eq!(classify(Ok(b'+')), Ok(Symbol::Character(b'+')));
    assert_eq!(classify(Ok(b'\r')), Ok(Symbol::ControlCharacter(b'\r')));
    assert_eq!(classify(Ok(b';')), Ok(Symbol::Terminator));
    assert_eq!(classify(Ok(b':')), Ok(Symbol::ParameterStart));
    assert_eq!(classify(Ok(b',')), Ok(Symbol::ParameterDelimiter));
    assert_eq!(classify(Err(LinkError::WouldBlock)), Ok(Symbol::Block));
    assert_eq!(classify(Ok(b' ')), Err(Error::Read));
    assert_eq!(classify(Ok(0xC3)), Err(Error::Read));
    assert_eq!(classify(Err(LinkError::Fault)), Err(Error::Read));
}

#[test]
fn parser_collects_parameters() {
    let mut p = ReplyParser::new();
    for &b in b"xVOL:5" {
        assert_eq!(p.feed(b"VOL", Ok(b)), Feed::Pending);
    }
    assert_eq!(p.feed(b"VOL", Ok(b';')), Feed::Done);
    assert_eq!(p.params().as_str(), "5");
}

//! The query engine: framing and sending commands, and running queries with
//! bounded resends, together with the model of what the driver does on the link.

use vstd::prelude::*;
use vstd::string::StringSliceAdditionalSpecFns;

use crate::device::COMMAND_VER;
use crate::error::Error;
use crate::link::{LinkError, Received, SerialLink};
use crate::protocol::{
    frame, initial_state, scan, Feed, Phase, Progress, ReplyParser, PARAMETER_START, TERMINATOR,
};
use crate::response::{empty_response, held_bytes, response_text, Response};

verus! {

/// How many times a query frame is sent at most before the query times out.
pub const SEND_ATTEMPTS: u8 = 3;

/// The budget of a driver built without one: polls granted to an attempt of
/// a query before the echo and after it, and would-block answers tolerated
/// per written byte.
pub const DEFAULT_POLL_BUDGET: u32 = 1_000_000;

/// One call the driver made on the link, with the link's answer.
pub enum LinkOp {
    Write(u8, Result<(), LinkError>),
    Flush(Result<(), LinkError>),
    Read(Received),
}

pub open spec fn is_prefix<T>(a: Seq<T>, b: Seq<T>) -> bool {
    a.len() <= b.len() && a == b.subrange(0, a.len() as int)
}

/// Where the writer of a frame stands: the byte it is writing and how many
/// times in a row the link said it would block on it.
pub struct WriteState {
    pub index: nat,
    pub waits: nat,
}

pub enum WriteProgress {
    Writing(WriteState),
    Done,
    Failed,
}

/// One answer of the link to writing a byte of the frame `f`: acceptance moves
/// to the next byte; a would-block answer is retried up to `budget` times in a
/// row; anything else fails the send.
pub open spec fn write_step(f: Seq<u8>, budget: nat, s: WriteState, a: Result<(), LinkError>) -> WriteProgress {
    match a {
        Ok(()) => if s.index + 1 >= f.len() {
            WriteProgress::Done
        } else {
            WriteProgress::Writing(WriteState { index: s.index + 1, waits: 0 })
        },
        Err(LinkError::WouldBlock) => if s.waits < budget {
            WriteProgress::Writing(WriteState { index: s.index, waits: s.waits + 1 })
        } else {
            WriteProgress::Failed
        },
        Err(LinkError::Fault) => WriteProgress::Failed,
    }
}

/// The writer's progress on `f` after the link's answers `answers`.
pub open spec fn write_scan(f: Seq<u8>, budget: nat, answers: Seq<Result<(), LinkError>>) -> WriteProgress
    decreases answers.len(),
{
    if answers.len() == 0 {
        WriteProgress::Writing(WriteState { index: 0, waits: 0 })
    } else {
        match write_scan(f, budget, answers.drop_last()) {
            WriteProgress::Writing(s) => write_step(f, budget, s, answers.last()),
            other => other,
        }
    }
}

/// The byte the writer hands to the link after the answers `answers`.
pub open spec fn next_byte(f: Seq<u8>, budget: nat, answers: Seq<Result<(), LinkError>>) -> u8 {
    match write_scan(f, budget, answers) {
        WriteProgress::Writing(s) => f[s.index as int],
        _ => 0,
    }
}

/// The link's answers to the writes among `ops`.
pub open spec fn write_answers(ops: Seq<LinkOp>) -> Seq<Result<(), LinkError>> {
    ops.map_values(|op: LinkOp| match op {
        LinkOp::Write(_, a) => a,
        _ => Err(LinkError::Fault),
    })
}

/// `ops` are the calls of writing the frame `f` (never empty) with the given
/// budget: only writes, each of the byte the writer is at, stopping as soon as
/// the frame is written or the send has failed.
pub open spec fn writes_frame(f: Seq<u8>, budget: nat, ops: Seq<LinkOp>) -> bool {
    &&& forall|k: int|
        0 <= k < ops.len() ==> #[trigger] ops[k] == LinkOp::Write(
            next_byte(f, budget, write_answers(ops.subrange(0, k))),
            write_answers(ops)[k],
        )
    &&& forall|k: int|
        0 <= k < ops.len() ==> (#[trigger] write_scan(f, budget, write_answers(ops.subrange(0, k)))) is Writing
    &&& !(write_scan(f, budget, write_answers(ops)) is Writing)
}

/// The log `after` is `before` followed by the writes of the frame `f`, and
/// `r` is `Ok` exactly when the link took the whole frame.
pub open spec fn command_sent(before: Seq<LinkOp>, after: Seq<LinkOp>, f: Seq<u8>, budget: nat, r: Result<(), Error>) -> bool {
    let ops = after.subrange(before.len() as int, after.len() as int);
    &&& before.len() <= after.len()
    &&& after.subrange(0, before.len() as int) == before
    &&& writes_frame(f, budget, ops)
    &&& (r is Ok <==> write_scan(f, budget, write_answers(ops)) is Done)
    &&& r is Err ==> r == Err::<(), Error>(Error::SendCommand)
}

/// One send of a query frame and the polls of the link that followed it.
pub struct Exchange {
    /// The writes of the frame.
    pub writes: Seq<LinkOp>,
    /// The link's answer to the flush after a fully written frame.
    pub flush: Option<Result<(), LinkError>>,
    /// Whether the frame was written and flushed.
    pub delivered: bool,
    /// The poll results read while waiting for the reply.
    pub heard: Seq<Received>,
}

/// The parser's progress on an exchange; an undelivered frame is a send error.
pub open spec fn exchange_progress(cmd: Seq<u8>, x: Exchange) -> Progress {
    if x.delivered {
        scan(cmd, initial_state(), x.heard)
    } else {
        Progress::Failed(Error::SendCommand)
    }
}

/// The exchange ended without the echo of the name: the reply was missed.
pub open spec fn missed(cmd: Seq<u8>, x: Exchange) -> bool {
    match exchange_progress(cmd, x) {
        Progress::Continue(s) => s.phase == Phase::AwaitingEcho,
        _ => false,
    }
}

/// The engine reads nothing after the reply is finished or has failed.
pub open spec fn stops_at_first_end(cmd: Seq<u8>, heard: Seq<Received>) -> bool {
    forall|k: int|
        0 <= k < heard.len() ==> (#[trigger] scan(cmd, initial_state(), heard.subrange(0, k))) is Continue
}

/// How many of the polls `rs` were made while the parser awaited the echo.
pub open spec fn awaiting_polls(cmd: Seq<u8>, rs: Seq<Received>) -> nat
    decreases rs.len(),
{
    if rs.len() == 0 {
        0
    } else {
        awaiting_polls(cmd, rs.drop_last()) + match scan(cmd, initial_state(), rs.drop_last()) {
            Progress::Continue(s) => if s.phase == Phase::AwaitingEcho {
                1nat
            } else {
                0nat
            },
            _ => 0nat,
        }
    }
}

/// The reads that returned `rs`.
pub open spec fn reads_of(rs: Seq<Received>) -> Seq<LinkOp> {
    rs.map_values(|r: Received| LinkOp::Read(r))
}

/// The calls of an exchange on the link, in order.
pub open spec fn exchange_ops(x: Exchange) -> Seq<LinkOp> {
    x.writes + match x.flush {
        Some(a) => seq![LinkOp::Flush(a)],
        None => Seq::empty(),
    } + reads_of(x.heard)
}

/// What one exchange of a query for `cmd` may look like. Before the echo the
/// attempt may poll `budget` times; running out means a missed reply. After
/// the echo the rest of the reply gets another `budget` polls; running out
/// ends the query.
#[verifier::opaque]
pub open spec fn valid_exchange(cmd: Seq<u8>, budget: nat, x: Exchange) -> bool {
    let f = frame(cmd, Seq::empty());
    let waiting = awaiting_polls(cmd, x.heard);
    &&& writes_frame(f, budget, x.writes)
    &&& x.flush is Some <==> write_scan(f, budget, write_answers(x.writes)) is Done
    &&& x.delivered <==> (x.flush is Some && x.flush->Some_0 is Ok)
    &&& !x.delivered ==> x.heard.len() == 0
    &&& waiting <= budget
    &&& x.heard.len() - waiting <= budget
    &&& stops_at_first_end(cmd, x.heard)
    &&& match exchange_progress(cmd, x) {
        Progress::Continue(s) => if s.phase == Phase::AwaitingEcho {
            waiting == budget
        } else {
            x.heard.len() - waiting == budget
        },
        _ => true,
    }
}

/// The exchanges of one query: at most `SEND_ATTEMPTS` sends, each one but the
/// last a missed reply, and a missed last one only when no send is left.
pub open spec fn valid_query(cmd: Seq<u8>, budget: nat, xs: Seq<Exchange>) -> bool {
    &&& 1 <= xs.len() <= SEND_ATTEMPTS
    &&& forall|i: int| 0 <= i < xs.len() ==> valid_exchange(cmd, budget, #[trigger] xs[i])
    &&& forall|i: int| 0 <= i < xs.len() - 1 ==> #[trigger] missed(cmd, xs[i])
    &&& missed(cmd, xs.last()) ==> xs.len() == SEND_ATTEMPTS
}

/// What a query whose exchanges were `xs` returns: a reply that did not finish
/// is a timeout.
pub open spec fn query_outcome(cmd: Seq<u8>, xs: Seq<Exchange>) -> Result<Seq<u8>, Error> {
    match exchange_progress(cmd, xs.last()) {
        Progress::Finished(p) => Ok(p),
        Progress::Failed(e) => Err(e),
        Progress::Continue(_) => Err(Error::Timeout),
    }
}

/// All calls on the link over the exchanges `xs`, in order.
pub open spec fn ops_during(xs: Seq<Exchange>) -> Seq<LinkOp>
    decreases xs.len(),
{
    if xs.len() == 0 {
        Seq::empty()
    } else {
        ops_during(xs.drop_last()) + exchange_ops(xs.last())
    }
}

/// `r` is the executable form of the outcome `o`.
pub open spec fn answers(r: Result<Response, Error>, o: Result<Seq<u8>, Error>) -> bool {
    match r {
        Ok(s) => o == Ok::<Seq<u8>, Error>(held_bytes(s)),
        Err(e) => o == Err::<Seq<u8>, Error>(e),
    }
}

/// How one attempt of a query ended.
enum Attempt {
    Answered(Response),
    Failed(Error),
    /// No echo within the attempt's polls.
    Missed,
    /// The echo came but the rest of the reply did not.
    TimedOut,
    /// The frame was not written and flushed.
    Unsent,
}

/// The UART driver for the Arylic Up2Stream Pro board.
pub struct Up2Stream<U: SerialLink> {
    uart: U,
    poll_budget: u32,
    response: Response,
    log: Ghost<Seq<LinkOp>>,
    exchanges: Ghost<Seq<Exchange>>,
}


/// Appends the bytes of `s` to `v`.
fn append(v: &mut Vec<u8>, s: &[u8])
    ensures
        final(v)@ == old(v)@ + s@,
{
    let mut i: usize = 0;
    while i < s.len()
        invariant
            i <= s@.len(),
            v@ == old(v)@ + s@.subrange(0, i as int),
        decreases s@.len() - i,
    {
        v.push(s[i]);
        assert(s@.subrange(0, i + 1) =~= s@.subrange(0, i as int).push(s@[i as int]));
        i = i + 1;
    }
    assert(s@.subrange(0, i as int) =~= s@);
}

/// The frame for `name` with parameter bytes `param`.
pub fn frame_bytes(name: &[u8], param: &[u8]) -> (v: Vec<u8>)
    ensures
        v@ == frame(name@, param@),
{
    let mut v: Vec<u8> = Vec::new();
    append(&mut v, name);
    if param.len() != 0 {
        v.push(PARAMETER_START);
        append(&mut v, param);
    }
    v.push(TERMINATOR);
    assert(v@ =~= frame(name@, param@));
    v
}

/// One more write, of the byte the writer is at, keeps the writes in order.
#[verifier::rlimit(100)]
proof fn lemma_write_push(f: Seq<u8>, budget: nat, ops: Seq<LinkOp>, a: Result<(), LinkError>)
    requires
        write_scan(f, budget, write_answers(ops)) is Writing,
        forall|k: int|
            0 <= k < ops.len() ==> #[trigger] ops[k] == LinkOp::Write(
                next_byte(f, budget, write_answers(ops.subrange(0, k))),
                write_answers(ops)[k],
            ),
        forall|k: int|
            0 <= k < ops.len() ==> (#[trigger] write_scan(f, budget, write_answers(ops.subrange(0, k)))) is Writing,
    ensures
        ({
            let more = ops.push(LinkOp::Write(next_byte(f, budget, write_answers(ops)), a));
            &&& write_scan(f, budget, write_answers(more)) == write_step(
                f,
                budget,
                write_scan(f, budget, write_answers(ops))->Writing_0,
                a,
            )
            &&& forall|k: int|
                0 <= k < more.len() ==> #[trigger] more[k] == LinkOp::Write(
                    next_byte(f, budget, write_answers(more.subrange(0, k))),
                    write_answers(more)[k],
                )
            &&& forall|k: int|
                0 <= k < more.len() ==> (#[trigger] write_scan(f, budget, write_answers(more.subrange(0, k)))) is Writing
        }),
{
    let more = ops.push(LinkOp::Write(next_byte(f, budget, write_answers(ops)), a));
    assert(write_answers(more) =~= write_answers(ops).push(a));
    assert(write_answers(more).drop_last() =~= write_answers(ops));
    assert forall|k: int| 0 <= k < more.len() implies #[trigger] more[k] == LinkOp::Write(
        next_byte(f, budget, write_answers(more.subrange(0, k))),
        write_answers(more)[k],
    ) && (#[trigger] write_scan(f, budget, write_answers(more.subrange(0, k)))) is Writing by {
        if k < ops.len() {
            assert(more.subrange(0, k) =~= ops.subrange(0, k));
        } else {
            assert(more.subrange(0, k) =~= ops);
        }
    }
}

/// An exchange whose frame was not delivered read nothing and is valid.
proof fn lemma_undelivered(cmd: Seq<u8>, budget: nat, x: Exchange)
    requires
        writes_frame(frame(cmd, Seq::empty()), budget, x.writes),
        x.flush is Some <==> write_scan(frame(cmd, Seq::empty()), budget, write_answers(x.writes)) is Done,
        !x.delivered,
        !(x.flush is Some && x.flush->Some_0 is Ok),
        x.heard.len() == 0,
    ensures
        valid_exchange(cmd, budget, x),
{
    reveal(valid_exchange);
    assert(x.heard =~= Seq::<Received>::empty());
}

/// A delivered exchange whose reads the reply loop made is valid.
proof fn lemma_delivered(cmd: Seq<u8>, budget: nat, x: Exchange)
    requires
        writes_frame(frame(cmd, Seq::empty()), budget, x.writes),
        write_scan(frame(cmd, Seq::empty()), budget, write_answers(x.writes)) is Done,
        x.flush is Some && x.flush->Some_0 is Ok,
        x.delivered,
        awaiting_polls(cmd, x.heard) <= budget,
        x.heard.len() - awaiting_polls(cmd, x.heard) <= budget,
        stops_at_first_end(cmd, x.heard),
        match scan(cmd, initial_state(), x.heard) {
            Progress::Continue(s) => if s.phase == Phase::AwaitingEcho {
                awaiting_polls(cmd, x.heard) == budget
            } else {
                x.heard.len() - awaiting_polls(cmd, x.heard) == budget
            },
            _ => true,
        },
    ensures
        valid_exchange(cmd, budget, x),
{
    reveal(valid_exchange);
}

/// The calls of the exchanges `xs` and then `x`.
proof fn lemma_ops_during_push(xs: Seq<Exchange>, x: Exchange)
    ensures
        ops_during(xs.push(x)) == ops_during(xs) + exchange_ops(x),
{
    assert(xs.push(x).drop_last() =~= xs);
}

impl<U: SerialLink> Up2Stream<U> {
    /// Every call the driver made on the link since it was made, with the
    /// link's answers.
    pub closed spec fn link_log(&self) -> Seq<LinkOp> {
        self.log@
    }

    /// The exchanges of the last query.
    pub closed spec fn last_exchanges(&self) -> Seq<Exchange> {
        self.exchanges@
    }

    /// The driver's budget: polls granted to an attempt of a query before the
    /// echo and after it, and would-block answers tolerated per written byte.
    pub closed spec fn budget(&self) -> nat {
        self.poll_budget as nat
    }

    /// Makes a driver over `uart` with the default budget. The board wants
    /// one terminator before first use; a failure to send it is ignored, as the
    /// link is usable afterwards.
    pub fn new(uart: U) -> (d: Self)
        ensures
            d.budget() == DEFAULT_POLL_BUDGET,
            d.last_exchanges().len() == 0,
            writes_frame(seq![TERMINATOR], d.budget(), d.link_log()),
    {
        Self::with_poll_budget(uart, DEFAULT_POLL_BUDGET)
    }

    /// Makes a driver over `uart` with the budget `poll_budget`.
    pub fn with_poll_budget(uart: U, poll_budget: u32) -> (d: Self)
        ensures
            d.budget() == poll_budget,
            d.last_exchanges().len() == 0,
            writes_frame(seq![TERMINATOR], d.budget(), d.link_log()),
    {
        let ghost none_yet = Seq::<LinkOp>::empty();
        let ghost no_exchange = Seq::<Exchange>::empty();
        let mut d = Up2Stream {
            uart,
            poll_budget,
            response: empty_response(),
            log: Ghost(none_yet),
            exchanges: Ghost(no_exchange),
        };
        let first: &[u8] = &[TERMINATOR];
        assert(first@ =~= seq![TERMINATOR]);
        let _ = d.write_frame(first);
        assert(d.log@.subrange(0, d.log@.len() as int) =~= d.log@);
        d
    }

    /// The driver's budget.
    pub fn poll_budget(&self) -> (r: u32)
        ensures
            r == self.budget(),
    {
        self.poll_budget
    }

    /// Ends the driver and gives its link back.
    pub fn into_link(self) -> (r: U) {
        self.uart
    }

    /// Writes the frame `f` byte by byte, retrying a byte while the link would
    /// block on it, up to the budget; any other refusal ends the send.
    fn write_frame(&mut self, f: &[u8]) -> (r: Result<(), Error>)
        requires
            f@.len() >= 1,
        ensures
            final(self).budget() == old(self).budget(),
            final(self).last_exchanges() == old(self).last_exchanges(),
            command_sent(old(self).link_log(), final(self).link_log(), f@, old(self).budget(), r),
    {
        let ghost start = self.log@;
        let ghost budget = self.poll_budget as nat;
        let mut i: usize = 0;
        let mut waits: u32 = 0;
        let ghost mut ops: Seq<LinkOp> = Seq::empty();
        while i < f.len()
            invariant
                f@.len() >= 1,
                i <= f@.len(),
                waits <= self.poll_budget,
                budget == self.poll_budget as nat,
                self.poll_budget == old(self).poll_budget,
                self.exchanges == old(self).exchanges,
                start == old(self).log@,
                self.log@ == start + ops,
                write_scan(f@, budget, write_answers(ops)) == if i < f@.len() {
                    WriteProgress::Writing(WriteState { index: i as nat, waits: waits as nat })
                } else {
                    WriteProgress::Done
                },
                forall|k: int|
                    0 <= k < ops.len() ==> #[trigger] ops[k] == LinkOp::Write(
                        next_byte(f@, budget, write_answers(ops.subrange(0, k))),
                        write_answers(ops)[k],
                    ),
                forall|k: int|
                    0 <= k < ops.len() ==> (#[trigger] write_scan(f@, budget, write_answers(ops.subrange(0, k)))) is Writing,
            decreases f@.len() - i, self.poll_budget - waits,
        {
            let b = f[i];
            let a = self.uart.write_byte(b);
            let ghost before = ops;
            proof {
                lemma_write_push(f@, budget, before, a);
                ops = ops.push(LinkOp::Write(b, a));
                self.log@ = self.log@.push(LinkOp::Write(b, a));
                assert(self.log@ =~= start + ops);
            }
            match a {
                Ok(()) => {
                    i = i + 1;
                    waits = 0;
                },
                Err(LinkError::WouldBlock) => {
                    if waits < self.poll_budget {
                        waits = waits + 1;
                    } else {
                        proof {
                            assert(self.log@.subrange(start.len() as int, self.log@.len() as int) =~= ops);
                            assert(self.log@.subrange(0, start.len() as int) =~= start);
                        }
                        return Err(Error::SendCommand);
                    }
                },
                Err(LinkError::Fault) => {
                    proof {
                        assert(self.log@.subrange(start.len() as int, self.log@.len() as int) =~= ops);
                        assert(self.log@.subrange(0, start.len() as int) =~= start);
                    }
                    return Err(Error::SendCommand);
                },
            }
        }
        proof {
            assert(self.log@.subrange(start.len() as int, self.log@.len() as int) =~= ops);
            assert(self.log@.subrange(0, start.len() as int) =~= start);
        }
        Ok(())
    }

    /// Sends the frame for `command` with parameter bytes `parameter`: the name,
    /// then `:` and the parameter when it is not empty, then the terminator.
    /// The link is only written to; the result is `Ok` exactly when it took
    /// every byte, and otherwise `SendCommand`, with nothing written after the
    /// refused byte.
    pub fn send_command(&mut self, command: &str, parameter: &[u8]) -> (r: Result<(), Error>)
        ensures
            final(self).budget() == old(self).budget(),
            final(self).last_exchanges() == old(self).last_exchanges(),
            command_sent(
                old(self).link_log(),
                final(self).link_log(),
                frame(command.spec_bytes(), parameter@),
                old(self).budget(),
                r,
            ),
    {
        let f = frame_bytes(command.as_bytes(), parameter);
        self.write_frame(f.as_slice())
    }

    /// Polls the link for the reply to `cmd` until it is finished or fails, or
    /// a budget is spent: `budget` polls while the echo is awaited, then
    /// `budget` polls for the rest of the reply.
    fn await_reply(&mut self, cmd: &[u8]) -> (r: (Attempt, Ghost<Seq<Received>>))
        ensures
            final(self).budget() == old(self).budget(),
            final(self).last_exchanges() == old(self).last_exchanges(),
            final(self).link_log() == old(self).link_log() + reads_of(r.1@),
            awaiting_polls(cmd@, r.1@) <= old(self).budget(),
            r.1@.len() - awaiting_polls(cmd@, r.1@) <= old(self).budget(),
            stops_at_first_end(cmd@, r.1@),
            match scan(cmd@, initial_state(), r.1@) {
                Progress::Continue(s) => if s.phase == Phase::AwaitingEcho {
                    r.0 is Missed && awaiting_polls(cmd@, r.1@) == old(self).budget()
                } else {
                    r.0 is TimedOut && r.1@.len() - awaiting_polls(cmd@, r.1@) == old(self).budget()
                },
                Progress::Finished(p) => exists|s: Response| r.0 == Attempt::Answered(s) && held_bytes(s) == p,
                Progress::Failed(e) => r.0 == Attempt::Failed(e),
            },
    {
        let mut parser = ReplyParser::new();
        let mut waited: u32 = 0;
        let mut reading: u32 = 0;
        let ghost start = self.log@;
        let ghost mut heard: Seq<Received> = Seq::empty();
        loop
            invariant
                waited as nat == awaiting_polls(cmd@, heard),
                heard.len() == waited + reading,
                waited <= self.poll_budget,
                reading <= self.poll_budget,
                self.poll_budget == old(self).poll_budget,
                self.exchanges == old(self).exchanges,
                start == old(self).log@,
                self.log@ == start + reads_of(heard),
                scan(cmd@, initial_state(), heard) == Progress::Continue(parser@),
                stops_at_first_end(cmd@, heard),
            decreases 2 * (self.poll_budget as int) - waited - reading,
        {
            let awaiting = parser.awaiting_echo();
            if awaiting {
                if waited == self.poll_budget {
                    return (Attempt::Missed, Ghost(heard));
                }
            } else if reading == self.poll_budget {
                return (Attempt::TimedOut, Ghost(heard));
            }
            let got = self.uart.read_byte();
            let ghost before = heard;
            proof {
                heard = heard.push(got);
                self.log@ = self.log@.push(LinkOp::Read(got));
                assert(heard.drop_last() =~= before);
                assert(reads_of(heard) =~= reads_of(before).push(LinkOp::Read(got)));
                assert(self.log@ =~= start + reads_of(heard));
                assert forall|k: int| 0 <= k < heard.len() implies (#[trigger] scan(cmd@, initial_state(), heard.subrange(0, k))) is Continue by {
                    if k < before.len() {
                        assert(heard.subrange(0, k) =~= before.subrange(0, k));
                    } else {
                        assert(heard.subrange(0, k) =~= before);
                    }
                }
            }
            if awaiting {
                waited = waited + 1;
            } else {
                reading = reading + 1;
            }
            match parser.feed(cmd, got) {
                Feed::Pending => {},
                Feed::Done => {
                    let params = *parser.params();
                    return (Attempt::Answered(params), Ghost(heard));
                },
                Feed::Fail(e) => {
                    return (Attempt::Failed(e), Ghost(heard));
                },
            }
        }
    }

    /// One attempt of a query: writes and flushes the query frame `qf` for
    /// `cmd`, then waits for the reply.
    #[verifier::rlimit(100)]
    fn one_exchange(&mut self, cmd: &[u8], qf: &[u8]) -> (r: (Attempt, Ghost<Exchange>))
        requires
            qf@ == frame(cmd@, Seq::empty()),
        ensures
            final(self).budget() == old(self).budget(),
            final(self).last_exchanges() == old(self).last_exchanges(),
            valid_exchange(cmd@, old(self).budget(), r.1@),
            final(self).link_log() == old(self).link_log() + exchange_ops(r.1@),
            match exchange_progress(cmd@, r.1@) {
                Progress::Continue(s) => if s.phase == Phase::AwaitingEcho {
                    r.0 is Missed
                } else {
                    r.0 is TimedOut
                },
                Progress::Finished(p) => exists|s: Response| r.0 == Attempt::Answered(s) && held_bytes(s) == p,
                Progress::Failed(e) => r.0 is Unsent && e == Error::SendCommand || r.0 == Attempt::Failed(e),
            },
    {
        let ghost c = cmd@;
        let ghost budget = self.poll_budget as nat;
        let ghost before = self.log@;
        let written = self.write_frame(qf);
        let ghost writes = self.log@.subrange(before.len() as int, self.log@.len() as int);
        proof {
            assert(self.log@ =~= before + writes);
        }
        if written.is_err() {
            let ghost x = Exchange { writes, flush: None, delivered: false, heard: Seq::empty() };
            proof {
                assert(exchange_ops(x) =~= writes);
                lemma_undelivered(c, budget, x);
            }
            return (Attempt::Unsent, Ghost(x));
        }
        let flushed = self.uart.flush();
        proof {
            self.log@ = self.log@.push(LinkOp::Flush(flushed));
        }
        match flushed {
            Ok(()) => {},
            Err(_) => {
                let ghost x = Exchange { writes, flush: Some(flushed), delivered: false, heard: Seq::empty() };
                proof {
                    assert(exchange_ops(x) =~= writes.push(LinkOp::Flush(flushed)));
                    assert(self.log@ =~= before + exchange_ops(x));
                    lemma_undelivered(c, budget, x);
                }
                return (Attempt::Unsent, Ghost(x));
            },
        }
        let ghost flushed_log = self.log@;
        proof {
            assert(flushed_log =~= before + writes.push(LinkOp::Flush(flushed)));
        }
        let (attempt, heard) = self.await_reply(cmd);
        let ghost x = Exchange { writes, flush: Some(flushed), delivered: true, heard: heard@ };
        proof {
            assert(exchange_ops(x) =~= writes.push(LinkOp::Flush(flushed)) + reads_of(heard@));
            assert(self.log@ =~= before + exchange_ops(x));
            lemma_delivered(c, budget, x);
        }
        (attempt, Ghost(x))
    }

    /// Sends the query `command` and returns the parameter list of the reply.
    ///
    /// Noise before the echo of the name is skipped. When no echo arrives
    /// within the budget's polls, the frame is sent again, at most
    /// `SEND_ATTEMPTS` times in all; then the query fails with `Timeout`. Once
    /// the echo has arrived the rest of the reply must come within the
    /// budget's polls, or the query fails with `Timeout` without a resend. Any
    /// other failure ends the query at once.
    #[verifier::rlimit(100)]
    pub fn send_query(&mut self, command: &str) -> (r: Result<Response, Error>)
        ensures
            final(self).budget() == old(self).budget(),
            valid_query(command.spec_bytes(), final(self).budget(), final(self).last_exchanges()),
            final(self).link_log() == old(self).link_log() + ops_during(final(self).last_exchanges()),
            answers(r, query_outcome(command.spec_bytes(), final(self).last_exchanges())),
    {
        let cmd = command.as_bytes();
        let none: &[u8] = &[];
        let qf = frame_bytes(cmd, none);
        let ghost c = command.spec_bytes();
        assert(none@ =~= Seq::<u8>::empty());
        let ghost start = self.log@;
        let ghost budget = self.poll_budget as nat;
        self.exchanges = Ghost(Seq::empty());
        let mut sends: u8 = 0;
        loop
            invariant
                cmd@ == c,
                c == command.spec_bytes(),
                qf@ == frame(c, Seq::empty()),
                budget == self.poll_budget as nat,
                self.poll_budget == old(self).poll_budget,
                start == old(self).log@,
                sends < SEND_ATTEMPTS,
                self.exchanges@.len() == sends,
                forall|i: int| 0 <= i < self.exchanges@.len() ==> valid_exchange(c, budget, #[trigger] self.exchanges@[i]),
                forall|i: int| 0 <= i < self.exchanges@.len() ==> #[trigger] missed(c, self.exchanges@[i]),
                self.log@ == start + ops_during(self.exchanges@),
            decreases SEND_ATTEMPTS - sends,
        {
            let ghost xs = self.exchanges@;
            let (attempt, x) = self.one_exchange(cmd, qf.as_slice());
            proof {
                self.exchanges@ = xs.push(x@);
                lemma_ops_during_push(xs, x@);
                assert(self.log@ =~= start + ops_during(self.exchanges@));
            }
            sends = sends + 1;
            match attempt {
                Attempt::Answered(s) => {
                    return Ok(s);
                },
                Attempt::Unsent => {
                    return Err(Error::SendCommand);
                },
                Attempt::Failed(e) => {
                    return Err(e);
                },
                Attempt::TimedOut => {
                    return Err(Error::Timeout);
                },
                Attempt::Missed => {
                    if sends >= SEND_ATTEMPTS {
                        return Err(Error::Timeout);
                    }
                },
            }
        }
    }

    /// Get the device firmware version as a string in the form
    /// {firmware}-{commit}-{api}.
    pub fn firmware_version(&mut self) -> (r: Result<&str, Error>)
        ensures
            final(self).budget() == old(self).budget(),
            valid_query(COMMAND_VER.spec_bytes(), final(self).budget(), final(self).last_exchanges()),
            final(self).link_log() == old(self).link_log() + ops_during(final(self).last_exchanges()),
            match r {
                Ok(t) => query_outcome(COMMAND_VER.spec_bytes(), final(self).last_exchanges())
                    == Ok::<Seq<u8>, Error>(t.spec_bytes()),
                Err(e) => query_outcome(COMMAND_VER.spec_bytes(), final(self).last_exchanges())
                    == Err::<Seq<u8>, Error>(e),
            },
    {
        match self.send_query(COMMAND_VER) {
            Ok(response) => {
                self.response = response;
                Ok(response_text(&self.response))
            },
            Err(e) => Err(e),
        }
    }
}

} // verus!

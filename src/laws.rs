//! General properties of queries, proved over the engine's model.

use vstd::prelude::*;

use crate::engine::{
    write_answers, write_scan, writes_frame, LinkOp, WriteProgress, WriteState,
    awaiting_polls, exchange_progress, is_prefix, missed, query_outcome, stops_at_first_end,
    valid_exchange, valid_query, Exchange, SEND_ATTEMPTS,
};
use crate::error::Error;
use crate::link::{LinkError, Received};
use crate::protocol::{
    initial_state, is_character, next_state, scan, symbol_of, ParseState, Phase, Progress,
    PARAMETER_DELIMITER, PARAMETER_START, TERMINATOR,
};
use crate::response::RESPONSE_CAPACITY;

verus! {

/// The poll results of a link that delivers `bytes` one after another.
pub open spec fn as_reads(bytes: Seq<u8>) -> Seq<Received> {
    bytes.map_values(|b: u8| Ok::<u8, LinkError>(b))
}

/// A well-formed reply to `cmd` carrying the parameter list `params`.
pub open spec fn reply(cmd: Seq<u8>, params: Seq<u8>) -> Seq<u8> {
    cmd.push(PARAMETER_START) + params.push(TERMINATOR)
}

/// A name the parser can recognise as an echo: non-empty, all name characters.
pub open spec fn is_echoable(cmd: Seq<u8>) -> bool {
    cmd.len() > 0 && forall|i: int| 0 <= i < cmd.len() ==> is_character(#[trigger] cmd[i])
}

/// Bytes that may make up a parameter list.
pub open spec fn is_parameter_list(params: Seq<u8>) -> bool {
    forall|i: int|
        0 <= i < params.len() ==> is_character(#[trigger] params[i]) || params[i] == PARAMETER_DELIMITER
}

/// `rs` with every would-block poll left out.
pub open spec fn without_silence(rs: Seq<Received>) -> Seq<Received>
    decreases rs.len(),
{
    if rs.len() == 0 {
        rs
    } else if rs.last() == Err::<u8, LinkError>(LinkError::WouldBlock) {
        without_silence(rs.drop_last())
    } else {
        without_silence(rs.drop_last()).push(rs.last())
    }
}

proof fn lemma_scan_push(cmd: Seq<u8>, s: ParseState, rs: Seq<Received>, r: Received)
    ensures
        scan(cmd, s, rs.push(r)) == match scan(cmd, s, rs) {
            Progress::Continue(t) => next_state(cmd, t, r),
            other => other,
        },
{
    assert(rs.push(r).drop_last() =~= rs);
}

/// Scanning `a + b` is scanning `a`, then `b` from where `a` left the parser.
proof fn lemma_scan_append(cmd: Seq<u8>, s: ParseState, a: Seq<Received>, b: Seq<Received>)
    ensures
        scan(cmd, s, a + b) == match scan(cmd, s, a) {
            Progress::Continue(t) => scan(cmd, t, b),
            other => other,
        },
    decreases b.len(),
{
    if b.len() == 0 {
        assert(a + b =~= a);
    } else {
        lemma_scan_append(cmd, s, a, b.drop_last());
        assert((a + b).drop_last() =~= a + b.drop_last());
    }
}

/// Once a prefix has finished or failed, the whole scan ends the same way.
proof fn lemma_end_is_final(cmd: Seq<u8>, s: ParseState, rs: Seq<Received>, k: int)
    requires
        0 <= k <= rs.len(),
        !(scan(cmd, s, rs.subrange(0, k)) is Continue),
    ensures
        scan(cmd, s, rs) == scan(cmd, s, rs.subrange(0, k)),
    decreases rs.len() - k,
{
    if k == rs.len() {
        assert(rs.subrange(0, k) =~= rs);
    } else {
        assert(rs.drop_last().subrange(0, k) =~= rs.subrange(0, k));
        lemma_end_is_final(cmd, s, rs.drop_last(), k);
    }
}

proof fn lemma_silence_changes_nothing(cmd: Seq<u8>, s: ParseState, rs: Seq<Received>)
    ensures
        scan(cmd, s, rs) == scan(cmd, s, without_silence(rs)),
    decreases rs.len(),
{
    if rs.len() > 0 {
        lemma_silence_changes_nothing(cmd, s, rs.drop_last());
        if rs.last() != Err::<u8, LinkError>(LinkError::WouldBlock) {
            lemma_scan_push(cmd, s, without_silence(rs.drop_last()), rs.last());
        }
    }
}

proof fn lemma_all_silent(cmd: Seq<u8>, rs: Seq<Received>)
    requires
        forall|j: int| 0 <= j < rs.len() ==> #[trigger] rs[j] == Err::<u8, LinkError>(LinkError::WouldBlock),
    ensures
        scan(cmd, initial_state(), rs) == Progress::Continue(initial_state()),
    decreases rs.len(),
{
    if rs.len() > 0 {
        lemma_all_silent(cmd, rs.drop_last());
    }
}

/// Feeding the first `k` bytes of an echoable name to a parser awaiting the echo
/// with nothing matched yet.
proof fn lemma_echo(cmd: Seq<u8>, acc: Seq<u8>, k: int)
    requires
        is_echoable(cmd),
        0 <= k <= cmd.len(),
    ensures
        scan(
            cmd,
            ParseState { phase: Phase::AwaitingEcho, matched: 0, params: acc },
            as_reads(cmd.subrange(0, k)),
        ) == Progress::Continue(
            ParseState {
                phase: if k == cmd.len() { Phase::EchoConfirmed } else { Phase::AwaitingEcho },
                matched: k as nat,
                params: acc,
            },
        ),
    decreases k,
{
    let s = ParseState { phase: Phase::AwaitingEcho, matched: 0, params: acc };
    if k == 0 {
        assert(as_reads(cmd.subrange(0, 0)) =~= Seq::<Received>::empty());
    } else {
        lemma_echo(cmd, acc, k - 1);
        assert(as_reads(cmd.subrange(0, k)) =~= as_reads(cmd.subrange(0, k - 1)).push(Ok(cmd[k - 1])));
        lemma_scan_push(cmd, s, as_reads(cmd.subrange(0, k - 1)), Ok(cmd[k - 1]));
        assert(is_character(cmd[k - 1]));
    }
}

/// Feeding the first `k` bytes of a parameter list inside the parameter section.
proof fn lemma_params(cmd: Seq<u8>, m: nat, params: Seq<u8>, k: int)
    requires
        is_parameter_list(params),
        params.len() <= RESPONSE_CAPACITY,
        0 <= k <= params.len(),
    ensures
        scan(
            cmd,
            ParseState { phase: Phase::InParameters, matched: m, params: Seq::empty() },
            as_reads(params.subrange(0, k)),
        ) == Progress::Continue(
            ParseState { phase: Phase::InParameters, matched: m, params: params.subrange(0, k) },
        ),
    decreases k,
{
    let s = ParseState { phase: Phase::InParameters, matched: m, params: Seq::empty() };
    if k == 0 {
        assert(as_reads(params.subrange(0, 0)) =~= Seq::<Received>::empty());
        assert(params.subrange(0, 0) =~= Seq::<u8>::empty());
    } else {
        lemma_params(cmd, m, params, k - 1);
        assert(as_reads(params.subrange(0, k)) =~= as_reads(params.subrange(0, k - 1)).push(Ok(params[k - 1])));
        lemma_scan_push(cmd, s, as_reads(params.subrange(0, k - 1)), Ok(params[k - 1]));
        assert(params.subrange(0, k) =~= params.subrange(0, k - 1).push(params[k - 1]));
        assert(is_character(params[k - 1]) || params[k - 1] == PARAMETER_DELIMITER);
    }
}

/// After noise that leaves nothing matched, a reply's bytes up to the last one
/// keep the parser going, and the terminator finishes it with `params`.
proof fn lemma_reply(cmd: Seq<u8>, noise: Seq<u8>, params: Seq<u8>)
    requires
        is_echoable(cmd),
        is_parameter_list(params),
        params.len() <= RESPONSE_CAPACITY,
        scan(cmd, initial_state(), as_reads(noise)) == Progress::Continue(initial_state()),
    ensures
        scan(cmd, initial_state(), as_reads(noise + reply(cmd, params)).drop_last()) is Continue,
        scan(cmd, initial_state(), as_reads(noise + reply(cmd, params))) == Progress::Finished::<>(params),
{
    let init = initial_state();
    let all = as_reads(noise + reply(cmd, params));
    let echo = as_reads(cmd);
    let body = as_reads(params);
    let confirmed = ParseState { phase: Phase::EchoConfirmed, matched: cmd.len(), params: Seq::empty() };
    let open = ParseState { phase: Phase::InParameters, matched: cmd.len(), params: Seq::empty() };
    lemma_echo(cmd, Seq::empty(), cmd.len() as int);
    assert(cmd.subrange(0, cmd.len() as int) =~= cmd);
    lemma_params(cmd, cmd.len(), params, params.len() as int);
    assert(params.subrange(0, params.len() as int) =~= params);
    let head = as_reads(noise) + echo;
    lemma_scan_append(cmd, init, as_reads(noise), echo);
    lemma_scan_push(cmd, init, head, Ok(PARAMETER_START));
    let opened = head.push(Ok(PARAMETER_START));
    lemma_scan_append(cmd, init, opened, body);
    assert(scan(cmd, init, opened + body) == Progress::Continue(
        ParseState { phase: Phase::InParameters, matched: cmd.len(), params: params },
    ));
    lemma_scan_push(cmd, init, opened + body, Ok(TERMINATOR));
    assert(all =~= (opened + body).push(Ok(TERMINATOR)));
    assert(all.drop_last() =~= opened + body);
}

proof fn lemma_awaiting_at_most_all(cmd: Seq<u8>, rs: Seq<Received>)
    ensures
        awaiting_polls(cmd, rs) <= rs.len(),
    decreases rs.len(),
{
    if rs.len() > 0 {
        lemma_awaiting_at_most_all(cmd, rs.drop_last());
    }
}

/// Over a prefix of the polls, fewer polls awaited the echo and fewer came
/// after it.
proof fn lemma_awaiting_prefix(cmd: Seq<u8>, rs: Seq<Received>, k: int)
    requires
        0 <= k <= rs.len(),
    ensures
        awaiting_polls(cmd, rs.subrange(0, k)) <= awaiting_polls(cmd, rs),
        k - awaiting_polls(cmd, rs.subrange(0, k)) <= rs.len() - awaiting_polls(cmd, rs),
    decreases rs.len() - k,
{
    lemma_awaiting_at_most_all(cmd, rs);
    if k == rs.len() {
        assert(rs.subrange(0, k) =~= rs);
    } else {
        assert(rs.drop_last().subrange(0, k) =~= rs.subrange(0, k));
        lemma_awaiting_prefix(cmd, rs.drop_last(), k);
        lemma_awaiting_at_most_all(cmd, rs.drop_last());
    }
}

/// The poll after the prefix `rs[..k]` counts as awaiting the echo exactly
/// when the parser was awaiting it there.
proof fn lemma_awaiting_step(cmd: Seq<u8>, rs: Seq<Received>, k: int)
    requires
        0 <= k < rs.len(),
        scan(cmd, initial_state(), rs.subrange(0, k)) is Continue,
    ensures
        scan(cmd, initial_state(), rs.subrange(0, k))->Continue_0.phase == Phase::AwaitingEcho
            ==> awaiting_polls(cmd, rs) >= awaiting_polls(cmd, rs.subrange(0, k)) + 1,
        scan(cmd, initial_state(), rs.subrange(0, k))->Continue_0.phase != Phase::AwaitingEcho
            ==> rs.len() - awaiting_polls(cmd, rs) >= k - awaiting_polls(cmd, rs.subrange(0, k)) + 1,
{
    assert(rs.subrange(0, k + 1).drop_last() =~= rs.subrange(0, k));
    lemma_awaiting_prefix(cmd, rs, k + 1);
}

/// While the parser still awaits the echo, every poll so far awaited it.
proof fn lemma_all_awaiting(cmd: Seq<u8>, rs: Seq<Received>)
    requires
        scan(cmd, initial_state(), rs) is Continue,
        scan(cmd, initial_state(), rs)->Continue_0.phase == Phase::AwaitingEcho,
    ensures
        awaiting_polls(cmd, rs) == rs.len(),
    decreases rs.len(),
{
    if rs.len() > 0 {
        let prev = scan(cmd, initial_state(), rs.drop_last());
        assert(prev is Continue);
        assert(prev->Continue_0.phase == Phase::AwaitingEcho);
        lemma_all_awaiting(cmd, rs.drop_last());
    }
}

/// When the reads `w` end a reply at their last poll and fit both budgets, an
/// exchange that read a prefix of `w` followed by anything read exactly `w`.
proof fn lemma_reads_whole_reply(
    cmd: Seq<u8>,
    budget: nat,
    x: Exchange,
    w: Seq<Received>,
    rest: Seq<Received>,
)
    requires
        valid_exchange(cmd, budget, x),
        x.delivered,
        w.len() > 0,
        awaiting_polls(cmd, w) <= budget,
        w.len() - awaiting_polls(cmd, w) <= budget,
        !(scan(cmd, initial_state(), w) is Continue),
        scan(cmd, initial_state(), w.drop_last()) is Continue,
        is_prefix(x.heard, w + rest),
    ensures
        x.heard == w,
{
    reveal(valid_exchange);
    let h = x.heard;
    if h.len() < w.len() {
        assert(h =~= w.subrange(0, h.len() as int));
        if !(scan(cmd, initial_state(), h) is Continue) {
            assert(w.drop_last().subrange(0, h.len() as int) =~= h);
            lemma_end_is_final(cmd, initial_state(), w.drop_last(), h.len() as int);
        }
        lemma_awaiting_step(cmd, w, h.len() as int);
    } else if h.len() > w.len() {
        assert(h.subrange(0, w.len() as int) =~= w);
        assert(stops_at_first_end(cmd, h));
        assert(scan(cmd, initial_state(), h.subrange(0, w.len() as int)) is Continue);
    }
    assert(h =~= w);
}

/// A query whose first exchange read `w`, ending a reply at its last poll,
/// made one exchange and returns that reply's outcome.
proof fn lemma_first_exchange_decides(
    cmd: Seq<u8>,
    budget: nat,
    xs: Seq<Exchange>,
    w: Seq<Received>,
    rest: Seq<Received>,
)
    requires
        valid_query(cmd, budget, xs),
        xs[0].delivered,
        w.len() > 0,
        awaiting_polls(cmd, w) <= budget,
        w.len() - awaiting_polls(cmd, w) <= budget,
        !(scan(cmd, initial_state(), w) is Continue),
        scan(cmd, initial_state(), w.drop_last()) is Continue,
        is_prefix(xs[0].heard, w + rest),
    ensures
        xs.len() == 1,
        exchange_progress(cmd, xs.last()) == scan(cmd, initial_state(), w),
{
    assert(valid_exchange(cmd, budget, xs[0]));
    lemma_reads_whole_reply(cmd, budget, xs[0], w, rest);
    if xs.len() > 1 {
        assert(missed(cmd, xs[0]));
    }
}

/// Noise before a reply is skipped: when the link answers the first send of a
/// query with noise that leaves no partial echo behind, then a well-formed
/// reply, then anything, the query makes one send and returns the reply's
/// parameter list, provided the polls up to the echo fit the budget and so do
/// the polls after it.
pub proof fn noise_before_reply_is_skipped(
    cmd: Seq<u8>,
    budget: nat,
    xs: Seq<Exchange>,
    noise: Seq<u8>,
    params: Seq<u8>,
    rest: Seq<Received>,
)
    requires
        valid_query(cmd, budget, xs),
        xs[0].delivered,
        is_echoable(cmd),
        is_parameter_list(params),
        params.len() <= RESPONSE_CAPACITY,
        scan(cmd, initial_state(), as_reads(noise)) == Progress::Continue(initial_state()),
        awaiting_polls(cmd, as_reads(noise + reply(cmd, params))) <= budget,
        reply(cmd, params).len() + noise.len() - awaiting_polls(cmd, as_reads(noise + reply(cmd, params))) <= budget,
        is_prefix(xs[0].heard, as_reads(noise + reply(cmd, params)) + rest),
    ensures
        xs.len() == 1,
        query_outcome(cmd, xs) == Ok::<Seq<u8>, Error>(params),
{
    lemma_reply(cmd, noise, params);
    lemma_first_exchange_decides(cmd, budget, xs, as_reads(noise + reply(cmd, params)), rest);
}

/// Would-block polls anywhere before the end of a reply change nothing: when
/// the first send is answered by polls that, without the would-blocks, are
/// noise leaving no partial echo and a well-formed reply, the query makes one
/// send and returns the parameter list, provided the polls up to the echo fit
/// the budget and so do the polls after it.
pub proof fn silence_before_reply_is_tolerated(
    cmd: Seq<u8>,
    budget: nat,
    xs: Seq<Exchange>,
    noise: Seq<u8>,
    params: Seq<u8>,
    polls: Seq<Received>,
    rest: Seq<Received>,
)
    requires
        valid_query(cmd, budget, xs),
        xs[0].delivered,
        is_echoable(cmd),
        is_parameter_list(params),
        params.len() <= RESPONSE_CAPACITY,
        scan(cmd, initial_state(), as_reads(noise)) == Progress::Continue(initial_state()),
        without_silence(polls) == as_reads(noise + reply(cmd, params)),
        awaiting_polls(cmd, polls) <= budget,
        polls.len() - awaiting_polls(cmd, polls) <= budget,
        polls.len() > 0,
        polls.last() != Err::<u8, LinkError>(LinkError::WouldBlock),
        is_prefix(xs[0].heard, polls + rest),
    ensures
        xs.len() == 1,
        query_outcome(cmd, xs) == Ok::<Seq<u8>, Error>(params),
{
    let all = as_reads(noise + reply(cmd, params));
    lemma_reply(cmd, noise, params);
    lemma_silence_changes_nothing(cmd, initial_state(), polls);
    lemma_silence_changes_nothing(cmd, initial_state(), polls.drop_last());
    assert(without_silence(polls) == without_silence(polls.drop_last()).push(polls.last()));
    assert(without_silence(polls.drop_last()) =~= all.drop_last());
    lemma_first_exchange_decides(cmd, budget, xs, polls, rest);
}

/// Silence on every send times out after exactly `SEND_ATTEMPTS` sends: when
/// every frame is delivered and every poll after it would block, the query
/// sends the frame `SEND_ATTEMPTS` times and fails with `Timeout`.
pub proof fn silence_times_out(cmd: Seq<u8>, budget: nat, xs: Seq<Exchange>)
    requires
        valid_query(cmd, budget, xs),
        forall|i: int| 0 <= i < xs.len() ==> (#[trigger] xs[i]).delivered,
        forall|i: int, j: int|
            0 <= i < xs.len() && 0 <= j < xs[i].heard.len() ==> #[trigger] xs[i].heard[j]
                == Err::<u8, LinkError>(LinkError::WouldBlock),
    ensures
        xs.len() == SEND_ATTEMPTS,
        query_outcome(cmd, xs) == Err::<Seq<u8>, Error>(Error::Timeout),
{
    let last = xs.last();
    assert(last.delivered);
    assert forall|j: int| 0 <= j < last.heard.len() implies #[trigger] last.heard[j]
        == Err::<u8, LinkError>(LinkError::WouldBlock) by {
        assert(xs[xs.len() - 1].heard[j] == Err::<u8, LinkError>(LinkError::WouldBlock));
    }
    lemma_all_silent(cmd, last.heard);
    assert(missed(cmd, last));
}

/// A reply whose echo is not followed by the parameter start fails the query at
/// once: when the first send is answered by the name and then any other byte,
/// the query makes one send and fails with `ParseResponse`, or with `Read` when
/// that byte belongs to no token, provided those polls fit the budgets.
pub proof fn broken_reply_is_not_retried(
    cmd: Seq<u8>,
    budget: nat,
    xs: Seq<Exchange>,
    b: u8,
    rest: Seq<Received>,
)
    requires
        valid_query(cmd, budget, xs),
        xs[0].delivered,
        is_echoable(cmd),
        b != PARAMETER_START,
        awaiting_polls(cmd, as_reads(cmd.push(b))) <= budget,
        cmd.len() + 1 - awaiting_polls(cmd, as_reads(cmd.push(b))) <= budget,
        is_prefix(xs[0].heard, as_reads(cmd.push(b)) + rest),
    ensures
        xs.len() == 1,
        query_outcome(cmd, xs) == Err::<Seq<u8>, Error>(
            if symbol_of(Ok(b)) is Ok { Error::ParseResponse } else { Error::Read },
        ),
{
    let w = as_reads(cmd.push(b));
    lemma_echo(cmd, Seq::empty(), cmd.len() as int);
    assert(cmd.subrange(0, cmd.len() as int) =~= cmd);
    assert(w =~= as_reads(cmd).push(Ok(b)));
    assert(w.drop_last() =~= as_reads(cmd));
    lemma_scan_push(cmd, initial_state(), as_reads(cmd), Ok(b));
    lemma_first_exchange_decides(cmd, budget, xs, w, rest);
}

/// Two exchanges of one attempt that read from the same polls read the same.
proof fn lemma_same_polls_same_reads(
    cmd: Seq<u8>,
    budget: nat,
    x1: Exchange,
    x2: Exchange,
    script: Seq<Received>,
)
    requires
        valid_exchange(cmd, budget, x1),
        valid_exchange(cmd, budget, x2),
        x1.delivered == x2.delivered,
        is_prefix(x1.heard, script),
        is_prefix(x2.heard, script),
    ensures
        x1.heard == x2.heard,
{
    reveal(valid_exchange);
    let h1 = x1.heard;
    let h2 = x2.heard;
    if x1.delivered {
        if h1.len() < h2.len() {
            assert(h2.subrange(0, h1.len() as int) =~= h1);
            assert(stops_at_first_end(cmd, h2));
            assert(scan(cmd, initial_state(), h2.subrange(0, h1.len() as int)) is Continue);
            lemma_awaiting_step(cmd, h2, h1.len() as int);
        } else if h2.len() < h1.len() {
            assert(h1.subrange(0, h2.len() as int) =~= h2);
            assert(stops_at_first_end(cmd, h1));
            assert(scan(cmd, initial_state(), h1.subrange(0, h2.len() as int)) is Continue);
            lemma_awaiting_step(cmd, h1, h2.len() as int);
        }
        assert(h1 =~= h2);
    } else {
        assert(h1 =~= h2);
    }
}

/// The exchanges `xs` met a link that, on the `i`-th send, delivered the frame
/// exactly when `delivers[i]` and then answered with the polls `scripts[i]`.
pub open spec fn answered_by(xs: Seq<Exchange>, delivers: Seq<bool>, scripts: Seq<Seq<Received>>) -> bool {
    forall|i: int|
        0 <= i < xs.len() ==> i < delivers.len() && i < scripts.len() && (#[trigger] xs[i]).delivered
            == delivers[i] && is_prefix(xs[i].heard, scripts[i])
}

/// A query depends on nothing but what the link answers: two queries of the
/// same command, with the same budget, against links that answer alike, read
/// the same polls and return the same outcome, whatever came before them.
pub proof fn same_answers_same_outcome(
    cmd: Seq<u8>,
    budget: nat,
    xs1: Seq<Exchange>,
    xs2: Seq<Exchange>,
    delivers: Seq<bool>,
    scripts: Seq<Seq<Received>>,
)
    requires
        valid_query(cmd, budget, xs1),
        valid_query(cmd, budget, xs2),
        answered_by(xs1, delivers, scripts),
        answered_by(xs2, delivers, scripts),
    ensures
        xs1.len() == xs2.len(),
        forall|i: int| 0 <= i < xs1.len() ==> (#[trigger] xs1[i]).heard == xs2[i].heard,
        query_outcome(cmd, xs1) == query_outcome(cmd, xs2),
{
    let n = if xs1.len() < xs2.len() { xs1.len() } else { xs2.len() };
    assert forall|i: int| 0 <= i < n implies (#[trigger] xs1[i]).heard == xs2[i].heard
        && exchange_progress(cmd, xs1[i]) == exchange_progress(cmd, xs2[i]) by {
        assert(valid_exchange(cmd, budget, xs1[i]));
        assert(valid_exchange(cmd, budget, xs2[i]));
        lemma_same_polls_same_reads(cmd, budget, xs1[i], xs2[i], scripts[i]);
    }
    if xs1.len() < xs2.len() {
        let i = xs1.len() - 1;
        assert(missed(cmd, xs2[i]));
        assert(exchange_progress(cmd, xs1[i]) == exchange_progress(cmd, xs2[i]));
    } else if xs2.len() < xs1.len() {
        let i = xs2.len() - 1;
        assert(missed(cmd, xs1[i]));
        assert(exchange_progress(cmd, xs1[i]) == exchange_progress(cmd, xs2[i]));
    }
    assert(exchange_progress(cmd, xs1[n - 1]) == exchange_progress(cmd, xs2[n - 1]));
}

proof fn lemma_accepted_prefix(f: Seq<u8>, budget: nat, answers: Seq<Result<(), LinkError>>, n: int)
    requires
        0 <= n <= answers.len(),
        n <= f.len(),
        f.len() >= 1,
        forall|k: int| 0 <= k < answers.len() ==> #[trigger] answers[k] == Ok::<(), LinkError>(()),
    ensures
        write_scan(f, budget, answers.subrange(0, n)) == if n < f.len() {
            WriteProgress::Writing(WriteState { index: n as nat, waits: 0 })
        } else {
            WriteProgress::Done
        },
    decreases n,
{
    if n == 0 {
        assert(answers.subrange(0, 0) =~= Seq::<Result<(), LinkError>>::empty());
    } else {
        lemma_accepted_prefix(f, budget, answers, n - 1);
        assert(answers.subrange(0, n).drop_last() =~= answers.subrange(0, n - 1));
    }
}

/// A frame the link takes byte by byte is written once, in order: when the
/// link accepts every write of a frame, the writes are exactly the frame's
/// bytes and the send succeeds.
pub proof fn accepted_frame_is_written_exactly(f: Seq<u8>, budget: nat, ops: Seq<LinkOp>)
    requires
        f.len() >= 1,
        writes_frame(f, budget, ops),
        forall|k: int| 0 <= k < ops.len() ==> #[trigger] write_answers(ops)[k] == Ok::<(), LinkError>(()),
    ensures
        write_scan(f, budget, write_answers(ops)) is Done,
        ops.len() == f.len(),
        forall|k: int| 0 <= k < f.len() ==> #[trigger] ops[k] == LinkOp::Write(f[k], Ok(())),
{
    let answers = write_answers(ops);
    if ops.len() < f.len() {
        lemma_accepted_prefix(f, budget, answers, ops.len() as int);
        assert(answers.subrange(0, ops.len() as int) =~= answers);
    } else if ops.len() > f.len() {
        lemma_accepted_prefix(f, budget, answers, f.len() as int);
        assert(ops.subrange(0, f.len() as int).len() == f.len());
        assert(write_answers(ops.subrange(0, f.len() as int)) =~= answers.subrange(0, f.len() as int));
        assert(write_scan(f, budget, write_answers(ops.subrange(0, f.len() as int))) is Writing);
    }
    lemma_accepted_prefix(f, budget, answers, f.len() as int);
    assert(answers.subrange(0, f.len() as int) =~= answers);
    assert forall|k: int| 0 <= k < f.len() implies #[trigger] ops[k] == LinkOp::Write(f[k], Ok(())) by {
        lemma_accepted_prefix(f, budget, answers, k);
        assert(write_answers(ops.subrange(0, k)) =~= answers.subrange(0, k));
    }
}

} // verus!

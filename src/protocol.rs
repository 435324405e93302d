//! The wire format: byte classes, frames, and the reply parser.

use vstd::prelude::*;

use crate::error::Error;
use crate::link::{LinkError, Received};
use crate::response::{empty_response, held_bytes, push_ascii, Response, RESPONSE_CAPACITY};

verus! {

/// Ends every frame, outgoing and incoming (`;`).
pub const TERMINATOR: u8 = 59;

/// Separates a command name from its parameters (`:`).
pub const PARAMETER_START: u8 = 58;

/// Separates the fields of a parameter list (`,`).
pub const PARAMETER_DELIMITER: u8 = 44;

/// `-`: part of negative numbers and version strings.
pub const MINUS: u8 = 45;

/// `+`: part of some command codes.
pub const PLUS: u8 = 43;

pub open spec fn is_alphanumeric(b: u8) -> bool {
    (48 <= b <= 57) || (65 <= b <= 90) || (97 <= b <= 122)
}

/// Bytes that may stand in a command name or a parameter field.
pub open spec fn is_character(b: u8) -> bool {
    is_alphanumeric(b) || b == MINUS || b == PLUS
}

/// ASCII control bytes.
pub open spec fn is_control(b: u8) -> bool {
    b < 32 || b == 127
}

/// The frame sent for `name` with parameter bytes `param`: `NAME;` when the
/// parameter is empty, `NAME:PARAM;` otherwise.
pub open spec fn frame(name: Seq<u8>, param: Seq<u8>) -> Seq<u8> {
    if param.len() == 0 {
        name.push(TERMINATOR)
    } else {
        name.push(PARAMETER_START) + param.push(TERMINATOR)
    }
}

/// The token that one poll of the link stands for.
#[derive(Debug, Clone, Copy, PartialEq, Eq, Structural)]
pub enum Symbol {
    Character(u8),
    ControlCharacter(u8),
    Terminator,
    ParameterStart,
    ParameterDelimiter,
    /// No byte was available yet.
    Block,
}

/// The token a poll result stands for; a link fault or a byte outside every
/// token is a read error.
pub open spec fn symbol_of(r: Received) -> Result<Symbol, Error> {
    match r {
        Err(LinkError::WouldBlock) => Ok(Symbol::Block),
        Err(LinkError::Fault) => Err(Error::Read),
        Ok(b) => if is_character(b) {
            Ok(Symbol::Character(b))
        } else if is_control(b) {
            Ok(Symbol::ControlCharacter(b))
        } else if b == TERMINATOR {
            Ok(Symbol::Terminator)
        } else if b == PARAMETER_START {
            Ok(Symbol::ParameterStart)
        } else if b == PARAMETER_DELIMITER {
            Ok(Symbol::ParameterDelimiter)
        } else {
            Err(Error::Read)
        },
    }
}

/// Maps one poll result of the link to a token.
pub fn classify(r: Received) -> (s: Result<Symbol, Error>)
    ensures
        s == symbol_of(r),
{
    match r {
        Err(LinkError::WouldBlock) => Ok(Symbol::Block),
        Err(LinkError::Fault) => Err(Error::Read),
        Ok(b) => {
            if (48 <= b && b <= 57) || (65 <= b && b <= 90) || (97 <= b && b <= 122) || b == MINUS
                || b == PLUS {
                Ok(Symbol::Character(b))
            } else if b < 32 || b == 127 {
                Ok(Symbol::ControlCharacter(b))
            } else if b == TERMINATOR {
                Ok(Symbol::Terminator)
            } else if b == PARAMETER_START {
                Ok(Symbol::ParameterStart)
            } else if b == PARAMETER_DELIMITER {
                Ok(Symbol::ParameterDelimiter)
            } else {
                Err(Error::Read)
            }
        },
    }
}

/// Where the reply parser stands inside the incoming byte stream.
#[derive(Debug, Clone, Copy, PartialEq, Eq, Structural)]
pub enum Phase {
    /// Scanning for the echo of the command name; noise is skipped here.
    AwaitingEcho,
    /// The whole name was echoed; the parameter start must come next.
    EchoConfirmed,
    /// Collecting the parameter list up to the terminator.
    InParameters,
}

/// The parser's state as a mathematical value.
pub struct ParseState {
    pub phase: Phase,
    /// How many bytes of the command name have been matched so far.
    pub matched: nat,
    /// The parameter bytes collected so far.
    pub params: Seq<u8>,
}

/// What feeding one more poll result leads to.
pub enum Progress {
    /// The reply is not complete yet; this is the new state.
    Continue(ParseState),
    /// The terminator arrived: these are the parameter-list bytes.
    Finished(Seq<u8>),
    /// The reply cannot be accepted.
    Failed(Error),
}

pub open spec fn initial_state() -> ParseState {
    ParseState { phase: Phase::AwaitingEcho, matched: 0, params: Seq::empty() }
}

/// One transition of the reply parser for the command name `cmd`.
pub open spec fn next_state(cmd: Seq<u8>, s: ParseState, r: Received) -> Progress {
    match symbol_of(r) {
        Err(e) => Progress::Failed(e),
        Ok(sym) => match s.phase {
            Phase::AwaitingEcho => match sym {
                Symbol::Block => Progress::Continue(s),
                Symbol::Character(c) => if s.matched < cmd.len() && c == cmd[s.matched as int] {
                    if s.matched + 1 == cmd.len() {
                        Progress::Continue(ParseState { phase: Phase::EchoConfirmed, matched: s.matched + 1, ..s })
                    } else {
                        Progress::Continue(ParseState { matched: s.matched + 1, ..s })
                    }
                } else {
                    Progress::Continue(ParseState { matched: 0, ..s })
                },
                _ => Progress::Continue(ParseState { matched: 0, ..s }),
            },
            Phase::EchoConfirmed => match sym {
                Symbol::ParameterStart => Progress::Continue(ParseState { phase: Phase::InParameters, ..s }),
                Symbol::Block => Progress::Continue(s),
                _ => Progress::Failed(Error::ParseResponse),
            },
            Phase::InParameters => match sym {
                Symbol::Character(c) => if s.params.len() < RESPONSE_CAPACITY {
                    Progress::Continue(ParseState { params: s.params.push(c), ..s })
                } else {
                    Progress::Failed(Error::ResponseTooLong)
                },
                Symbol::ParameterDelimiter => if s.params.len() < RESPONSE_CAPACITY {
                    Progress::Continue(ParseState { params: s.params.push(PARAMETER_DELIMITER), ..s })
                } else {
                    Progress::Failed(Error::ResponseTooLong)
                },
                Symbol::Terminator => Progress::Finished(s.params),
                Symbol::Block => Progress::Continue(s),
                _ => Progress::Failed(Error::IllFormedReponse),
            },
        },
    }
}

/// The parser's progress after the poll results `rs`, starting from `s`; once
/// the reply is finished or has failed, later polls change nothing.
pub open spec fn scan(cmd: Seq<u8>, s: ParseState, rs: Seq<Received>) -> Progress
    decreases rs.len(),
{
    if rs.len() == 0 {
        Progress::Continue(s)
    } else {
        match scan(cmd, s, rs.drop_last()) {
            Progress::Continue(t) => next_state(cmd, t, rs.last()),
            other => other,
        }
    }
}

/// What one call of `ReplyParser::feed` reports.
#[derive(Debug, Clone, Copy, PartialEq, Eq, Structural)]
pub enum Feed {
    Pending,
    Done,
    Fail(Error),
}

/// The state machine that recognises a reply `NOISE* NAME ':' PARAMS ';'` one
/// poll result at a time.
pub struct ReplyParser {
    phase: Phase,
    matched: usize,
    params: Response,
}

impl View for ReplyParser {
    type V = ParseState;

    closed spec fn view(&self) -> ParseState {
        ParseState { phase: self.phase, matched: self.matched as nat, params: held_bytes(self.params) }
    }
}

impl ReplyParser {
    pub fn new() -> (p: Self)
        ensures
            p@ == initial_state(),
    {
        ReplyParser { phase: Phase::AwaitingEcho, matched: 0, params: empty_response() }
    }

    /// Whether the parser is still waiting for the echo of the name.
    pub fn awaiting_echo(&self) -> (r: bool)
        ensures
            r == (self@.phase == Phase::AwaitingEcho),
    {
        match self.phase {
            Phase::AwaitingEcho => true,
            _ => false,
        }
    }

    /// The parameter bytes collected so far.
    pub fn params(&self) -> (r: &Response)
        ensures
            held_bytes(*r) == self@.params,
    {
        &self.params
    }

    /// Takes one poll result of the link for the reply to command `cmd`.
    pub fn feed(&mut self, cmd: &[u8], r: Received) -> (f: Feed)
        ensures
            match next_state(cmd@, old(self)@, r) {
                Progress::Continue(t) => f == Feed::Pending && final(self)@ == t,
                Progress::Finished(p) => f == Feed::Done && final(self)@.params == p,
                Progress::Failed(e) => f == Feed::Fail(e),
            },
    {
        let sym = match classify(r) {
            Ok(sym) => sym,
            Err(e) => return Feed::Fail(e),
        };
        match self.phase {
            Phase::AwaitingEcho => {
                match sym {
                    Symbol::Block => {},
                    Symbol::Character(c) => {
                        if self.matched < cmd.len() && c == cmd[self.matched] {
                            self.matched = self.matched + 1;
                            if self.matched == cmd.len() {
                                self.phase = Phase::EchoConfirmed;
                            }
                        } else {
                            self.matched = 0;
                        }
                    },
                    _ => {
                        self.matched = 0;
                    },
                }
                Feed::Pending
            },
            Phase::EchoConfirmed => {
                match sym {
                    Symbol::ParameterStart => {
                        self.phase = Phase::InParameters;
                        Feed::Pending
                    },
                    Symbol::Block => Feed::Pending,
                    _ => Feed::Fail(Error::ParseResponse),
                }
            },
            Phase::InParameters => {
                match sym {
                    Symbol::Character(c) => {
                        if push_ascii(&mut self.params, c) {
                            Feed::Pending
                        } else {
                            Feed::Fail(Error::ResponseTooLong)
                        }
                    },
                    Symbol::ParameterDelimiter => {
                        if push_ascii(&mut self.params, PARAMETER_DELIMITER) {
                            Feed::Pending
                        } else {
                            Feed::Fail(Error::ResponseTooLong)
                        }
                    },
                    Symbol::Terminator => Feed::Done,
                    Symbol::Block => Feed::Pending,
                    _ => Feed::Fail(Error::IllFormedReponse),
                }
            },
        }
    }
}

} // verus!

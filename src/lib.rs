//! A driver for the UART interface of the Arylic Up2Stream Pro amplifier board.
//!
//! The driver talks to the board over any [SerialLink]: it frames commands as
//! `NAME;` or `NAME:PARAM;`, recognises replies `NAME:FIELD,...,FIELD;` in a
//! noisy byte stream, and resends a query, a bounded number of times, when no
//! echo of its name arrives within the poll budget.
//!
//! Values are not set directly, but through types such as [Volume] or [Bass]
//! that only hold values the board accepts.

pub mod device;
pub mod engine;
pub mod error;
pub mod laws;
pub mod link;
pub mod parameter_types;
pub mod protocol;
pub mod response;
pub mod text;
pub mod types;

pub use crate::engine::{Up2Stream, DEFAULT_POLL_BUDGET, SEND_ATTEMPTS};
pub use crate::error::Error;
pub use crate::link::{LinkError, SerialLink};
pub use crate::parameter_types::{
    boolean_from_str, AudioChannel, Bass, DeviceStatus, Led, LoopMode, MultiroomState,
    PlayPreset, Playback, ScalarParameter, Source, Switch, SystemControl, Treble, Volume,
};
pub use crate::response::{Response, RESPONSE_CAPACITY};

//! The typed parameters of commands and replies, and their text forms.

use core::str::FromStr;

use vstd::prelude::*;
use vstd::string::StringSliceAdditionalSpecFns;

use crate::error::Error;
use crate::response::{span_count, FIELD_CAPACITY};
use crate::text::{
    bounded_text, copy_into, decimal, encode_decimal, field, written_front, field_spans, parse_bounded, same_bytes,
    split_commas,
};

verus! {

/// What reading an `i8` from `b` and then checking it against `lo..=hi` gives:
/// `InvalidString` when `b` is no `i8`, `OutOfRange` when it is outside.
pub open spec fn scalar_from_text(b: Seq<u8>, lo: int, hi: int) -> Result<int, Error> {
    match bounded_text(b, true, -128, 127) {
        None => Err(Error::InvalidString),
        Some(v) => if lo <= v <= hi {
            Ok(v)
        } else {
            Err(Error::OutOfRange)
        },
    }
}

/// A parameter that is a single number.
pub trait ScalarParameter<T> {
    spec fn value(&self) -> i8;

    fn get(&self) -> (r: i8)
        ensures
            r == self.value(),
    ;

    /// Writes the decimal text of the value to the front of `buf` and returns it.
    fn to_parameter_str<'a>(&self, buf: &'a mut [u8]) -> (r: &'a [u8])
        requires
            decimal(self.value() as int).len() <= old(buf)@.len(),
        ensures
            r@ == decimal(self.value() as int),
            written_front(old(buf)@, final(buf)@, r@),
    {
        let value = self.get();
        encode_decimal(value, buf)
    }
}

/// Represents a volume from 0 to 100.
#[derive(Debug, PartialEq, Clone, Copy)]
pub struct Volume(i8);

impl Volume {
    #[verifier::type_invariant]
    spec fn in_range(self) -> bool {
        0 <= self.0 <= 100
    }

    pub fn new(volume: i8) -> (r: Result<Volume, Error>)
        ensures
            match r {
                Ok(v) => 0 <= volume <= 100 && v.value() == volume,
                Err(e) => !(0 <= volume <= 100) && e == Error::OutOfRange,
            },
    {
        if 0 <= volume && volume <= 100 {
            Ok(Volume(volume))
        } else {
            Err(Error::OutOfRange)
        }
    }

    /// Reads a volume from its decimal text.
    pub fn from_bytes(b: &[u8]) -> (r: Result<Volume, Error>)
        ensures
            match r {
                Ok(v) => scalar_from_text(b@, 0, 100) == Ok::<int, Error>(v.value() as int),
                Err(e) => scalar_from_text(b@, 0, 100) == Err::<int, Error>(e),
            },
    {
        match parse_bounded(b, true, -128, 127) {
            None => Err(Error::InvalidString),
            Some(v) => Volume::new(v as i8),
        }
    }

}

impl ScalarParameter<u8> for Volume {
    closed spec fn value(&self) -> i8 {
        self.0
    }

    /// Get the volume as value
    fn get(&self) -> (r: i8) {
        self.0
    }
}

impl FromStr for Volume {
    type Err = Error;

    fn from_str(s: &str) -> (r: Result<Self, Self::Err>)
        ensures
            match r {
                Ok(v) => scalar_from_text(s.spec_bytes(), 0, 100) == Ok::<int, Error>(v.value() as int),
                Err(e) => scalar_from_text(s.spec_bytes(), 0, 100) == Err::<int, Error>(e),
            },
    {
        Volume::from_bytes(s.as_bytes())
    }
}

/// Represents a treble setting from -10 to 10.
#[derive(Debug, PartialEq, Clone, Copy)]
pub struct Treble(i8);

impl Treble {
    #[verifier::type_invariant]
    spec fn in_range(self) -> bool {
        -10 <= self.0 <= 10
    }

    pub fn new(treble: i8) -> (r: Result<Self, Error>)
        ensures
            match r {
                Ok(v) => -10 <= treble <= 10 && v.value() == treble,
                Err(e) => !(-10 <= treble <= 10) && e == Error::OutOfRange,
            },
    {
        if -10 <= treble && treble <= 10 {
            Ok(Treble(treble))
        } else {
            Err(Error::OutOfRange)
        }
    }

    /// Reads a treble setting from its decimal text.
    pub fn from_bytes(b: &[u8]) -> (r: Result<Treble, Error>)
        ensures
            match r {
                Ok(v) => scalar_from_text(b@, -10, 10) == Ok::<int, Error>(v.value() as int),
                Err(e) => scalar_from_text(b@, -10, 10) == Err::<int, Error>(e),
            },
    {
        match parse_bounded(b, true, -128, 127) {
            None => Err(Error::InvalidString),
            Some(v) => Treble::new(v as i8),
        }
    }
}

impl ScalarParameter<i8> for Treble {
    closed spec fn value(&self) -> i8 {
        self.0
    }

    /// Get the treble setting as value
    fn get(&self) -> (r: i8) {
        self.0
    }
}

impl FromStr for Treble {
    type Err = Error;

    fn from_str(s: &str) -> (r: Result<Self, Self::Err>)
        ensures
            match r {
                Ok(v) => scalar_from_text(s.spec_bytes(), -10, 10) == Ok::<int, Error>(v.value() as int),
                Err(e) => scalar_from_text(s.spec_bytes(), -10, 10) == Err::<int, Error>(e),
            },
    {
        Treble::from_bytes(s.as_bytes())
    }
}

/// Represents a bass setting.
/// Bass settings can be from -10 to 10.
#[derive(Debug, PartialEq, Clone, Copy)]
pub struct Bass(i8);

impl Bass {
    #[verifier::type_invariant]
    spec fn in_range(self) -> bool {
        -10 <= self.0 <= 10
    }

    pub fn new(bass: i8) -> (r: Result<Self, Error>)
        ensures
            match r {
                Ok(v) => -10 <= bass <= 10 && v.value() == bass,
                Err(e) => !(-10 <= bass <= 10) && e == Error::OutOfRange,
            },
    {
        if -10 <= bass && bass <= 10 {
            Ok(Bass(bass))
        } else {
            Err(Error::OutOfRange)
        }
    }

    /// Reads a bass setting from its decimal text.
    pub fn from_bytes(b: &[u8]) -> (r: Result<Bass, Error>)
        ensures
            match r {
                Ok(v) => scalar_from_text(b@, -10, 10) == Ok::<int, Error>(v.value() as int),
                Err(e) => scalar_from_text(b@, -10, 10) == Err::<int, Error>(e),
            },
    {
        match parse_bounded(b, true, -128, 127) {
            None => Err(Error::InvalidString),
            Some(v) => Bass::new(v as i8),
        }
    }
}

impl ScalarParameter<i8> for Bass {
    closed spec fn value(&self) -> i8 {
        self.0
    }

    fn get(&self) -> (r: i8) {
        self.0
    }
}

impl FromStr for Bass {
    type Err = Error;

    fn from_str(s: &str) -> (r: Result<Self, Self::Err>)
        ensures
            match r {
                Ok(v) => scalar_from_text(s.spec_bytes(), -10, 10) == Ok::<int, Error>(v.value() as int),
                Err(e) => scalar_from_text(s.spec_bytes(), -10, 10) == Err::<int, Error>(e),
            },
    {
        Bass::from_bytes(s.as_bytes())
    }
}

/// A preset number from 0 to 10.
#[derive(Debug, PartialEq, Clone, Copy)]
pub struct PlayPreset(i8);

impl PlayPreset {
    #[verifier::type_invariant]
    spec fn in_range(self) -> bool {
        0 <= self.0 <= 10
    }

    pub closed spec fn number(&self) -> i8 {
        self.0
    }

    pub fn new(preset: i8) -> (r: Result<Self, Error>)
        ensures
            match r {
                Ok(v) => 0 <= preset <= 10 && v.number() == preset,
                Err(e) => !(0 <= preset <= 10) && e == Error::OutOfRange,
            },
    {
        if 0 <= preset && preset <= 10 {
            Ok(PlayPreset(preset))
        } else {
            Err(Error::OutOfRange)
        }
    }

    /// Reads a preset number from its decimal text.
    pub fn from_bytes(b: &[u8]) -> (r: Result<PlayPreset, Error>)
        ensures
            match r {
                Ok(v) => scalar_from_text(b@, 0, 10) == Ok::<int, Error>(v.number() as int),
                Err(e) => scalar_from_text(b@, 0, 10) == Err::<int, Error>(e),
            },
    {
        match parse_bounded(b, true, -128, 127) {
            None => Err(Error::InvalidString),
            Some(v) => PlayPreset::new(v as i8),
        }
    }
}

impl FromStr for PlayPreset {
    type Err = Error;

    fn from_str(s: &str) -> (r: Result<Self, Self::Err>)
        ensures
            match r {
                Ok(v) => scalar_from_text(s.spec_bytes(), 0, 10) == Ok::<int, Error>(v.number() as int),
                Err(e) => scalar_from_text(s.spec_bytes(), 0, 10) == Err::<int, Error>(e),
            },
    {
        PlayPreset::from_bytes(s.as_bytes())
    }
}

///  A parameter that is used for on/off/toggle switches in the UART API.
///  If the state is either On or Off it can be converted to a boolean (true for On).
#[derive(Debug, PartialEq, Eq, Clone, Copy, Structural)]
pub enum Switch {
    On,
    Off,
    Toggle,
}

/// The byte that stands for a switch state on the wire.
pub open spec fn switch_byte(s: Switch) -> u8 {
    match s {
        Switch::Off => 48,
        Switch::On => 49,
        Switch::Toggle => 84,
    }
}

pub open spec fn switch_bool(s: Switch) -> Result<bool, Error> {
    match s {
        Switch::On => Ok(true),
        Switch::Off => Ok(false),
        Switch::Toggle => Err(Error::CannotConvert),
    }
}

/// The switch state a reply text stands for: exactly `0`, `1` or `T`.
pub open spec fn switch_from_text(b: Seq<u8>) -> Result<Switch, Error> {
    if b == seq![switch_byte(Switch::Off)] {
        Ok(Switch::Off)
    } else if b == seq![switch_byte(Switch::On)] {
        Ok(Switch::On)
    } else if b == seq![switch_byte(Switch::Toggle)] {
        Ok(Switch::Toggle)
    } else {
        Err(Error::InvalidString)
    }
}

/// The boolean a reply text stands for: `1` is true, `0` is false.
pub open spec fn flag_from_text(b: Seq<u8>) -> Result<bool, Error> {
    match switch_from_text(b) {
        Ok(s) => switch_bool(s),
        Err(e) => Err(e),
    }
}

impl Switch {
    pub fn to_bool(&self) -> (r: Result<bool, Error>)
        ensures
            r == switch_bool(*self),
    {
        match self {
            Self::On => Ok(true),
            Self::Off => Ok(false),
            Self::Toggle => Err(Error::CannotConvert),
        }
    }

    /// Writes the switch's byte to the front of `buf` and returns it.
    pub fn to_parameter_str<'a>(&self, buf: &'a mut [u8]) -> (r: &'a [u8])
        requires
            old(buf)@.len() >= 1,
        ensures
            r@ == seq![switch_byte(*self)],
            written_front(old(buf)@, final(buf)@, r@),
    {
        buf[0] = match self {
            Self::Off => 48,
            Self::On => 49,
            Self::Toggle => 84,
        };
        assert(buf@.subrange(0, 1) =~= seq![switch_byte(*self)]);
        assert(buf@.subrange(1, buf@.len() as int) =~= old(buf)@.subrange(1, buf@.len() as int));
        let out: &'a [u8] = buf;
        let r = vstd::slice::slice_subrange(out, 0, 1);
        assert(r@ =~= seq![switch_byte(*self)]);
        r
    }

    /// Reads a switch state from its text.
    pub fn from_bytes(b: &[u8]) -> (r: Result<Switch, Error>)
        ensures
            r == switch_from_text(b@),
    {
        if b.len() != 1 {
            assert(b@ != seq![48u8] && b@ != seq![49u8] && b@ != seq![84u8]);
            return Err(Error::InvalidString);
        }
        assert(b@ =~= seq![b@[0]]);
        if b[0] == 48 {
            Ok(Switch::Off)
        } else if b[0] == 49 {
            Ok(Switch::On)
        } else if b[0] == 84 {
            Ok(Switch::Toggle)
        } else {
            Err(Error::InvalidString)
        }
    }
}

impl From<bool> for Switch {
    fn from(value: bool) -> (r: Self) {
        if value {
            Switch::On
        } else {
            Switch::Off
        }
    }
}

impl vstd::std_specs::convert::FromSpecImpl<bool> for Switch {
    open spec fn obeys_from_spec() -> bool {
        true
    }

    open spec fn from_spec(v: bool) -> Switch {
        if v {
            Switch::On
        } else {
            Switch::Off
        }
    }
}

impl FromStr for Switch {
    type Err = Error;

    fn from_str(s: &str) -> (r: Result<Self, Self::Err>)
        ensures
            r == switch_from_text(s.spec_bytes()),
    {
        Switch::from_bytes(s.as_bytes())
    }
}

/// Reads a boolean from the text `1` or `0`.
pub fn boolean_from_str(s: &str) -> (r: Result<bool, Error>)
    ensures
        r == flag_from_text(s.spec_bytes()),
{
    match Switch::from_bytes(s.as_bytes()) {
        Ok(switch) => switch.to_bool(),
        Err(e) => Err(e),
    }
}

/// System-wide actions of the board.
#[derive(Debug, PartialEq, Eq, Clone, Copy, Structural)]
pub enum SystemControl {
    Reboot,
    Standby,
    Reset,
    Recover,
}

pub open spec fn system_control_text(c: SystemControl) -> Seq<u8> {
    match c {
        SystemControl::Reboot => "REBOOT".spec_bytes(),
        SystemControl::Standby => "STANDBY".spec_bytes(),
        SystemControl::Reset => "RESET".spec_bytes(),
        SystemControl::Recover => "RECOVER".spec_bytes(),
    }
}

/// Each action's text is at most seven bytes long.
pub proof fn system_control_text_fits(c: SystemControl)
    ensures
        system_control_text(c).len() <= 7,
{
    broadcast use vstd::string::is_ascii_spec_bytes;

    reveal_strlit("REBOOT");
    reveal_strlit("STANDBY");
    reveal_strlit("RESET");
    reveal_strlit("RECOVER");
    assert(vstd::string::is_ascii("REBOOT"));
    assert(vstd::string::is_ascii("STANDBY"));
    assert(vstd::string::is_ascii("RESET"));
    assert(vstd::string::is_ascii("RECOVER"));
}

impl SystemControl {
    /// Writes the action's text to the front of `buf` and returns it.
    pub fn to_parameter_str<'a>(&self, buf: &'a mut [u8]) -> (r: &'a [u8])
        requires
            system_control_text(*self).len() <= old(buf)@.len(),
        ensures
            r@ == system_control_text(*self),
            written_front(old(buf)@, final(buf)@, r@),
    {
        let parameter: &str = match self {
            Self::Reboot => "REBOOT",
            Self::Standby => "STANDBY",
            Self::Reset => "RESET",
            Self::Recover => "RECOVER",
        };
        copy_into(parameter.as_bytes(), buf)
    }
}

/// The input sources of the board.
#[derive(Debug, PartialEq, Eq, Clone, Copy, Structural)]
pub enum Source {
    Net,
    Usb,
    UsbDac,
    LineIn,
    LineIn2,
    Bluetooth,
    Optical,
    Coax,
    I2S,
    Hdmi,
}

pub open spec fn source_text(s: Source) -> Seq<u8> {
    match s {
        Source::Net => "NET".spec_bytes(),
        Source::Usb => "USB".spec_bytes(),
        Source::UsbDac => "USBDAC".spec_bytes(),
        Source::LineIn => "LINE-IN".spec_bytes(),
        Source::LineIn2 => "LINE-IN2".spec_bytes(),
        Source::Bluetooth => "BT".spec_bytes(),
        Source::Optical => "OPT".spec_bytes(),
        Source::Coax => "COAX".spec_bytes(),
        Source::I2S => "I2S".spec_bytes(),
        Source::Hdmi => "HDMI".spec_bytes(),
    }
}

/// The source a reply text names; any other text is `SourceNotKnown`.
pub open spec fn source_from_text(b: Seq<u8>) -> Result<Source, Error> {
    if b == source_text(Source::Net) {
        Ok(Source::Net)
    } else if b == source_text(Source::Usb) {
        Ok(Source::Usb)
    } else if b == source_text(Source::UsbDac) {
        Ok(Source::UsbDac)
    } else if b == source_text(Source::LineIn) {
        Ok(Source::LineIn)
    } else if b == source_text(Source::LineIn2) {
        Ok(Source::LineIn2)
    } else if b == source_text(Source::Bluetooth) {
        Ok(Source::Bluetooth)
    } else if b == source_text(Source::Optical) {
        Ok(Source::Optical)
    } else if b == source_text(Source::Coax) {
        Ok(Source::Coax)
    } else if b == source_text(Source::I2S) {
        Ok(Source::I2S)
    } else if b == source_text(Source::Hdmi) {
        Ok(Source::Hdmi)
    } else {
        Err(Error::SourceNotKnown)
    }
}

/// Each source's text is at most eight bytes long.
pub proof fn source_text_fits(s: Source)
    ensures
        source_text(s).len() <= 8,
{
    broadcast use vstd::string::is_ascii_spec_bytes;

    reveal_strlit("NET");
    reveal_strlit("USB");
    reveal_strlit("USBDAC");
    reveal_strlit("LINE-IN");
    reveal_strlit("LINE-IN2");
    reveal_strlit("BT");
    reveal_strlit("OPT");
    reveal_strlit("COAX");
    reveal_strlit("I2S");
    reveal_strlit("HDMI");
    assert(vstd::string::is_ascii("NET"));
    assert(vstd::string::is_ascii("USB"));
    assert(vstd::string::is_ascii("USBDAC"));
    assert(vstd::string::is_ascii("LINE-IN"));
    assert(vstd::string::is_ascii("LINE-IN2"));
    assert(vstd::string::is_ascii("BT"));
    assert(vstd::string::is_ascii("OPT"));
    assert(vstd::string::is_ascii("COAX"));
    assert(vstd::string::is_ascii("I2S"));
    assert(vstd::string::is_ascii("HDMI"));
}

impl Source {
    fn text(&self) -> (r: &'static str)
        ensures
            r.spec_bytes() == source_text(*self),
    {
        match self {
            Self::Net => "NET",
            Self::Usb => "USB",
            Self::UsbDac => "USBDAC",
            Self::LineIn => "LINE-IN",
            Self::LineIn2 => "LINE-IN2",
            Self::Bluetooth => "BT",
            Self::Optical => "OPT",
            Self::Coax => "COAX",
            Self::I2S => "I2S",
            Self::Hdmi => "HDMI",
        }
    }

    /// Writes the source's text to the front of `buf` and returns it.
    pub fn to_parameter_str<'a>(&self, buf: &'a mut [u8]) -> (r: &'a [u8])
        requires
            source_text(*self).len() <= old(buf)@.len(),
        ensures
            r@ == source_text(*self),
            written_front(old(buf)@, final(buf)@, r@),
    {
        copy_into(self.text().as_bytes(), buf)
    }

    /// Reads a source from the text that names it.
    pub fn from_bytes(b: &[u8]) -> (r: Result<Source, Error>)
        ensures
            r == source_from_text(b@),
    {
        if same_bytes(b, Source::Net.text().as_bytes()) {
            Ok(Source::Net)
        } else if same_bytes(b, Source::Usb.text().as_bytes()) {
            Ok(Source::Usb)
        } else if same_bytes(b, Source::UsbDac.text().as_bytes()) {
            Ok(Source::UsbDac)
        } else if same_bytes(b, Source::LineIn.text().as_bytes()) {
            Ok(Source::LineIn)
        } else if same_bytes(b, Source::LineIn2.text().as_bytes()) {
            Ok(Source::LineIn2)
        } else if same_bytes(b, Source::Bluetooth.text().as_bytes()) {
            Ok(Source::Bluetooth)
        } else if same_bytes(b, Source::Optical.text().as_bytes()) {
            Ok(Source::Optical)
        } else if same_bytes(b, Source::Coax.text().as_bytes()) {
            Ok(Source::Coax)
        } else if same_bytes(b, Source::I2S.text().as_bytes()) {
            Ok(Source::I2S)
        } else if same_bytes(b, Source::Hdmi.text().as_bytes()) {
            Ok(Source::Hdmi)
        } else {
            Err(Error::SourceNotKnown)
        }
    }
}

impl FromStr for Source {
    type Err = Error;

    fn from_str(source_str: &str) -> (r: Result<Source, Error>)
        ensures
            r == source_from_text(source_str.spec_bytes()),
    {
        Source::from_bytes(source_str.as_bytes())
    }
}

/// The state of the device as reported by one status query.
#[derive(Debug, PartialEq)]
pub struct DeviceStatus {
    pub source: Source,
    pub mute: bool,
    pub volume: Volume,
    pub treble: Treble,
    pub bass: Bass,
    pub net: bool,
    pub internet: bool,
    pub playing: bool,
    pub led: bool,
    pub upgrading: bool,
}

/// The error of a failed result.
pub open spec fn error_of<T>(r: Result<T, Error>) -> Error {
    match r {
        Err(e) => e,
        Ok(_) => Error::Unimplemented,
    }
}

/// Why a status reply is rejected, if it is: fewer than ten fields or more
/// than the field list holds, or the
/// first field, in order, that does not read as what it stands for.
pub open spec fn status_error(b: Seq<u8>) -> Option<Error> {
    let f = split_commas(b);
    if f.len() < 10 || f.len() > FIELD_CAPACITY {
        Some(Error::IllFormedReponse)
    } else if source_from_text(f[0]) is Err {
        Some(error_of(source_from_text(f[0])))
    } else if flag_from_text(f[1]) is Err {
        Some(error_of(flag_from_text(f[1])))
    } else if scalar_from_text(f[2], 0, 100) is Err {
        Some(error_of(scalar_from_text(f[2], 0, 100)))
    } else if scalar_from_text(f[3], -10, 10) is Err {
        Some(error_of(scalar_from_text(f[3], -10, 10)))
    } else if scalar_from_text(f[4], -10, 10) is Err {
        Some(error_of(scalar_from_text(f[4], -10, 10)))
    } else if flag_from_text(f[5]) is Err {
        Some(error_of(flag_from_text(f[5])))
    } else if flag_from_text(f[6]) is Err {
        Some(error_of(flag_from_text(f[6])))
    } else if flag_from_text(f[7]) is Err {
        Some(error_of(flag_from_text(f[7])))
    } else if flag_from_text(f[8]) is Err {
        Some(error_of(flag_from_text(f[8])))
    } else if flag_from_text(f[9]) is Err {
        Some(error_of(flag_from_text(f[9])))
    } else {
        None
    }
}

/// `d` holds what the ten leading fields of the status reply `b` say.
pub open spec fn status_describes(d: DeviceStatus, b: Seq<u8>) -> bool {
    let f = split_commas(b);
    &&& source_from_text(f[0]) == Ok::<Source, Error>(d.source)
    &&& flag_from_text(f[1]) == Ok::<bool, Error>(d.mute)
    &&& scalar_from_text(f[2], 0, 100) == Ok::<int, Error>(d.volume.value() as int)
    &&& scalar_from_text(f[3], -10, 10) == Ok::<int, Error>(d.treble.value() as int)
    &&& scalar_from_text(f[4], -10, 10) == Ok::<int, Error>(d.bass.value() as int)
    &&& flag_from_text(f[5]) == Ok::<bool, Error>(d.net)
    &&& flag_from_text(f[6]) == Ok::<bool, Error>(d.internet)
    &&& flag_from_text(f[7]) == Ok::<bool, Error>(d.playing)
    &&& flag_from_text(f[8]) == Ok::<bool, Error>(d.led)
    &&& flag_from_text(f[9]) == Ok::<bool, Error>(d.upgrading)
}

fn flag_field(b: &[u8]) -> (r: Result<bool, Error>)
    ensures
        r == flag_from_text(b@),
{
    match Switch::from_bytes(b) {
        Ok(switch) => switch.to_bool(),
        Err(e) => Err(e),
    }
}

impl DeviceStatus {
    /// Reads a device status from the parameter list of a status reply:
    /// source, mute, volume, treble, bass, net, internet, playing, led and
    /// upgrading, separated by commas. Fields after the tenth are ignored; a
    /// reply with more fields than the field list holds is ill-formed.
    pub fn from_bytes(b: &[u8]) -> (r: Result<DeviceStatus, Error>)
        ensures
            match r {
                Ok(d) => status_error(b@) is None && status_describes(d, b@),
                Err(e) => status_error(b@) == Some(e),
            },
    {
        let spans = match field_spans(b) {
            Some(spans) => spans,
            None => return Err(Error::IllFormedReponse),
        };
        let ghost f = split_commas(b@);
        if span_count(&spans) < 10 {
            return Err(Error::IllFormedReponse);
        }
        let source = match Source::from_bytes(field(b, &spans, 0)) {
            Ok(v) => v,
            Err(e) => return Err(e),
        };
        let mute = match flag_field(field(b, &spans, 1)) {
            Ok(v) => v,
            Err(e) => return Err(e),
        };
        let volume = match Volume::from_bytes(field(b, &spans, 2)) {
            Ok(v) => v,
            Err(e) => return Err(e),
        };
        let treble = match Treble::from_bytes(field(b, &spans, 3)) {
            Ok(v) => v,
            Err(e) => return Err(e),
        };
        let bass = match Bass::from_bytes(field(b, &spans, 4)) {
            Ok(v) => v,
            Err(e) => return Err(e),
        };
        let net = match flag_field(field(b, &spans, 5)) {
            Ok(v) => v,
            Err(e) => return Err(e),
        };
        let internet = match flag_field(field(b, &spans, 6)) {
            Ok(v) => v,
            Err(e) => return Err(e),
        };
        let playing = match flag_field(field(b, &spans, 7)) {
            Ok(v) => v,
            Err(e) => return Err(e),
        };
        let led = match flag_field(field(b, &spans, 8)) {
            Ok(v) => v,
            Err(e) => return Err(e),
        };
        let upgrading = match flag_field(field(b, &spans, 9)) {
            Ok(v) => v,
            Err(e) => return Err(e),
        };
        Ok(DeviceStatus { source, mute, volume, treble, bass, net, internet, playing, led, upgrading })
    }
}

pub enum Playback {
    Playing,
    NotPlaying,
}

pub enum AudioChannel {
    Left,
    Right,
    Silent,
}

pub enum MultiroomState {
    Slave,
    Master,
    /// Not part of a multiroom group.
    Standalone,
}

pub enum Led {
    On,
    Off,
    Toogle,
}

pub enum LoopMode {
    RepeatAll,
    RepeatOne,
    RepeatShuffle,
    Shuffle,
    Sequence,
}

} // verus!

//! The typed commands and queries of the board, built on the query engine.

use vstd::prelude::*;
use vstd::string::StringSliceAdditionalSpecFns;

use crate::engine::{
    command_sent, ops_during, query_outcome, valid_query, Exchange, Up2Stream,
};
use crate::error::Error;
use crate::link::SerialLink;
use crate::parameter_types::{
    flag_from_text, scalar_from_text, source_from_text, source_text, source_text_fits,
    status_describes, status_error, switch_byte, system_control_text,
    system_control_text_fits, Bass, DeviceStatus, ScalarParameter, Source, Switch,
    SystemControl, Treble, Volume,
};
use crate::protocol::frame;
use crate::response::response_text;
use crate::text::decimal;

verus! {

pub const COMMAND_VER: &'static str = "VER";
pub const COMMAND_STATUS: &'static str = "STA";
pub const COMMAND_SYSTEM_CONTROL: &'static str = "SYS";
pub const COMMAND_WWW: &'static str = "WWW";
pub const COMMAND_AUD: &'static str = "AUD";
pub const COMMAND_SRC: &'static str = "SRC";
pub const COMMAND_VOL: &'static str = "VOL";
pub const COMMAND_MUT: &'static str = "MUT";
pub const COMMAND_BAS: &'static str = "BAS";
pub const COMMAND_TRE: &'static str = "TRE";
pub const COMMAND_POP: &'static str = "POP";
pub const COMMAND_STP: &'static str = "STP";
pub const COMMAND_NXT: &'static str = "NXT";
pub const COMMAND_PRE: &'static str = "PRE";
pub const COMMAND_BTC: &'static str = "BTC";

/// A query outcome carried on into reading its parameter list as `read` does.
pub open spec fn then_read<T>(o: Result<Seq<u8>, Error>, read: spec_fn(Seq<u8>) -> Result<T, Error>) -> Result<T, Error> {
    match o {
        Ok(p) => read(p),
        Err(e) => Err(e),
    }
}

/// The source named by the reply to a source query.
pub open spec fn reply_source(o: Result<Seq<u8>, Error>) -> Result<Source, Error> {
    then_read(o, |p: Seq<u8>| source_from_text(p))
}

/// Sources that play tracks: network and USB, and Bluetooth when `with_bluetooth`.
pub open spec fn plays_tracks(s: Source, with_bluetooth: bool) -> bool {
    s == Source::Net || s == Source::Usb || (with_bluetooth && s == Source::Bluetooth)
}

impl<U: SerialLink> Up2Stream<U> {
    /// The driver `new` is `old` after one query of `cmd`.
    pub open spec fn queried(old: Self, new: Self, cmd: Seq<u8>) -> bool {
        &&& new.budget() == old.budget()
        &&& valid_query(cmd, new.budget(), new.last_exchanges())
        &&& new.link_log() == old.link_log() + ops_during(new.last_exchanges())
    }

    /// The driver `new` is `old` after sending the frame for `cmd` with
    /// parameter `param`, with result `r`.
    pub open spec fn commanded(old: Self, new: Self, cmd: Seq<u8>, param: Seq<u8>, r: Result<(), Error>) -> bool {
        &&& new.budget() == old.budget()
        &&& new.last_exchanges() == old.last_exchanges()
        &&& command_sent(old.link_log(), new.link_log(), frame(cmd, param), old.budget(), r)
    }

    /// The driver `new` is `old` after a query of the source and, when the
    /// source is one of `allowed`, the frame for `cmd` without parameter.
    pub open spec fn commanded_for_sources(
        old: Self,
        new: Self,
        allowed: spec_fn(Source) -> bool,
        cmd: Seq<u8>,
        r: Result<(), Error>,
    ) -> bool {
        let mid = old.link_log() + ops_during(new.last_exchanges());
        &&& new.budget() == old.budget()
        &&& valid_query(COMMAND_SRC.spec_bytes(), new.budget(), new.last_exchanges())
        &&& match reply_source(query_outcome(COMMAND_SRC.spec_bytes(), new.last_exchanges())) {
            Err(e) => r == Err::<(), Error>(e) && new.link_log() == mid,
            Ok(s) => if allowed(s) {
                command_sent(mid, new.link_log(), frame(cmd, Seq::empty()), old.budget(), r)
            } else {
                r == Err::<(), Error>(Error::NotSupportedForDeviceSource) && new.link_log() == mid
            },
        }
    }

    /// Get the device status as a [DeviceStatus] struct.
    pub fn status(&mut self) -> (r: Result<DeviceStatus, Error>)
        ensures
            Self::queried(*old(self), *final(self), COMMAND_STATUS.spec_bytes()),
            match query_outcome(COMMAND_STATUS.spec_bytes(), final(self).last_exchanges()) {
                Err(e) => r == Err::<DeviceStatus, Error>(e),
                Ok(p) => match r {
                    Ok(d) => status_error(p) is None && status_describes(d, p),
                    Err(e) => status_error(p) == Some(e),
                },
            },
    {
        let response = match self.send_query(COMMAND_STATUS) {
            Ok(response) => response,
            Err(e) => return Err(e),
        };
        DeviceStatus::from_bytes(response_text(&response).as_bytes())
    }

    /// Reset, reboot or put into standby the device.
    pub fn execute_system_control(&mut self, control: SystemControl) -> (r: Result<(), Error>)
        ensures
            Self::commanded(*old(self), *final(self), COMMAND_SYSTEM_CONTROL.spec_bytes(), system_control_text(control), r),
    {
        let mut buf = [0u8; 64];
        proof {
            system_control_text_fits(control);
        }
        let parameter = control.to_parameter_str(&mut buf);
        self.send_command(COMMAND_SYSTEM_CONTROL, parameter)
    }

    /// Get the status of the internet connection. The reply must be a single
    /// `0` or `1`.
    pub fn internet_connection(&mut self) -> (r: Result<bool, Error>)
        ensures
            Self::queried(*old(self), *final(self), COMMAND_WWW.spec_bytes()),
            r == then_read(
                query_outcome(COMMAND_WWW.spec_bytes(), final(self).last_exchanges()),
                |p: Seq<u8>| if p.len() != 1 { Err(Error::IllFormedReponse) } else { flag_from_text(p) },
            ),
    {
        let response = match self.send_query(COMMAND_WWW) {
            Ok(response) => response,
            Err(e) => return Err(e),
        };
        let text = response_text(&response).as_bytes();
        if text.len() != 1 {
            return Err(Error::IllFormedReponse);
        }
        Self::flag(text)
    }

    fn flag(text: &[u8]) -> (r: Result<bool, Error>)
        ensures
            r == flag_from_text(text@),
    {
        match Switch::from_bytes(text) {
            Ok(switch) => switch.to_bool(),
            Err(e) => Err(e),
        }
    }

    /// Get if audio output has been enabled. A reply longer than one byte is
    /// ill-formed.
    pub fn audio_out(&mut self) -> (r: Result<bool, Error>)
        ensures
            Self::queried(*old(self), *final(self), COMMAND_AUD.spec_bytes()),
            r == then_read(
                query_outcome(COMMAND_AUD.spec_bytes(), final(self).last_exchanges()),
                |p: Seq<u8>| if p.len() > 1 { Err(Error::IllFormedReponse) } else { flag_from_text(p) },
            ),
    {
        let response = match self.send_query(COMMAND_AUD) {
            Ok(response) => response,
            Err(e) => return Err(e),
        };
        let text = response_text(&response).as_bytes();
        if text.len() > 1 {
            return Err(Error::IllFormedReponse);
        }
        Self::flag(text)
    }

    /// Enable or disable audio output.
    pub fn set_audio_out(&mut self, enable: bool) -> (r: Result<(), Error>)
        ensures
            Self::commanded(
                *old(self),
                *final(self),
                COMMAND_AUD.spec_bytes(),
                seq![switch_byte(if enable { Switch::On } else { Switch::Off })],
                r,
            ),
    {
        let switch = Switch::from(enable);
        let mut buf = [0u8; 1];
        let parameter = switch.to_parameter_str(&mut buf);
        self.send_command(COMMAND_AUD, parameter)
    }

    /// Get the current input source.
    pub fn input_source(&mut self) -> (r: Result<Source, Error>)
        ensures
            Self::queried(*old(self), *final(self), COMMAND_SRC.spec_bytes()),
            r == reply_source(query_outcome(COMMAND_SRC.spec_bytes(), final(self).last_exchanges())),
    {
        let response = match self.send_query(COMMAND_SRC) {
            Ok(response) => response,
            Err(e) => return Err(e),
        };
        Source::from_bytes(response_text(&response).as_bytes())
    }

    /// Select the input source.
    pub fn select_input_source(&mut self, source: Source) -> (r: Result<(), Error>)
        ensures
            Self::commanded(*old(self), *final(self), COMMAND_SRC.spec_bytes(), source_text(source), r),
    {
        let mut buf = [0u8; 20];
        proof {
            source_text_fits(source);
        }
        let parameter = source.to_parameter_str(&mut buf);
        self.send_command(COMMAND_SRC, parameter)
    }

    /// Get the current volume.
    pub fn volume(&mut self) -> (r: Result<Volume, Error>)
        ensures
            Self::queried(*old(self), *final(self), COMMAND_VOL.spec_bytes()),
            match then_read(
                query_outcome(COMMAND_VOL.spec_bytes(), final(self).last_exchanges()),
                |p: Seq<u8>| scalar_from_text(p, 0, 100),
            ) {
                Ok(v) => r is Ok && r->Ok_0.value() == v,
                Err(e) => r == Err::<Volume, Error>(e),
            },
    {
        let response = match self.send_query(COMMAND_VOL) {
            Ok(response) => response,
            Err(e) => return Err(e),
        };
        Volume::from_bytes(response_text(&response).as_bytes())
    }

    /// Set the volume.
    pub fn set_volume(&mut self, volume: Volume) -> (r: Result<(), Error>)
        ensures
            Self::commanded(*old(self), *final(self), COMMAND_VOL.spec_bytes(), decimal(volume.value() as int), r),
    {
        let mut buf = [0u8; 4];
        proof {
            crate::text::decimal_fits(volume.value());
        }
        let parameter = volume.to_parameter_str(&mut buf);
        self.send_command(COMMAND_VOL, parameter)
    }

    /// Get if the audio is muted or not.
    pub fn mute_status(&mut self) -> (r: Result<bool, Error>)
        ensures
            Self::queried(*old(self), *final(self), COMMAND_MUT.spec_bytes()),
            r == then_read(
                query_outcome(COMMAND_MUT.spec_bytes(), final(self).last_exchanges()),
                |p: Seq<u8>| flag_from_text(p),
            ),
    {
        let response = match self.send_query(COMMAND_MUT) {
            Ok(response) => response,
            Err(e) => return Err(e),
        };
        Self::flag(response_text(&response).as_bytes())
    }

    /// Mute, unmute or toggle the mute state.
    pub fn set_mute(&mut self, switch: Switch) -> (r: Result<(), Error>)
        ensures
            Self::commanded(*old(self), *final(self), COMMAND_MUT.spec_bytes(), seq![switch_byte(switch)], r),
    {
        let mut buf = [0u8; 1];
        let parameter = switch.to_parameter_str(&mut buf);
        self.send_command(COMMAND_MUT, parameter)
    }

    /// Get the bass value.
    pub fn bass(&mut self) -> (r: Result<Bass, Error>)
        ensures
            Self::queried(*old(self), *final(self), COMMAND_BAS.spec_bytes()),
            match then_read(
                query_outcome(COMMAND_BAS.spec_bytes(), final(self).last_exchanges()),
                |p: Seq<u8>| scalar_from_text(p, -10, 10),
            ) {
                Ok(v) => r is Ok && r->Ok_0.value() == v,
                Err(e) => r == Err::<Bass, Error>(e),
            },
    {
        let response = match self.send_query(COMMAND_BAS) {
            Ok(response) => response,
            Err(e) => return Err(e),
        };
        Bass::from_bytes(response_text(&response).as_bytes())
    }

    /// Set the bass value.
    pub fn set_bass(&mut self, bass: Bass) -> (r: Result<(), Error>)
        ensures
            Self::commanded(*old(self), *final(self), COMMAND_BAS.spec_bytes(), decimal(bass.value() as int), r),
    {
        let mut buf = [0u8; 4];
        proof {
            crate::text::decimal_fits(bass.value());
        }
        let parameter = bass.to_parameter_str(&mut buf);
        self.send_command(COMMAND_BAS, parameter)
    }

    /// Get the treble value.
    pub fn treble(&mut self) -> (r: Result<Treble, Error>)
        ensures
            Self::queried(*old(self), *final(self), COMMAND_TRE.spec_bytes()),
            match then_read(
                query_outcome(COMMAND_TRE.spec_bytes(), final(self).last_exchanges()),
                |p: Seq<u8>| scalar_from_text(p, -10, 10),
            ) {
                Ok(v) => r is Ok && r->Ok_0.value() == v,
                Err(e) => r == Err::<Treble, Error>(e),
            },
    {
        let response = match self.send_query(COMMAND_TRE) {
            Ok(response) => response,
            Err(e) => return Err(e),
        };
        Treble::from_bytes(response_text(&response).as_bytes())
    }

    /// Set the treble value.
    pub fn set_treble(&mut self, treble: Treble) -> (r: Result<(), Error>)
        ensures
            Self::commanded(*old(self), *final(self), COMMAND_TRE.spec_bytes(), decimal(treble.value() as int), r),
    {
        let mut buf = [0u8; 4];
        proof {
            crate::text::decimal_fits(treble.value());
        }
        let parameter = treble.to_parameter_str(&mut buf);
        self.send_command(COMMAND_TRE, parameter)
    }

    /// Toggle between play and pause.
    pub fn play_pause_toggle(&mut self) -> (r: Result<(), Error>)
        ensures
            Self::commanded(*old(self), *final(self), COMMAND_POP.spec_bytes(), Seq::empty(), r),
    {
        let none: &[u8] = &[];
        assert(none@ =~= Seq::<u8>::empty());
        self.send_command(COMMAND_POP, none)
    }

    /// Queries the source, then sends `command` without parameter when the
    /// source is a network or USB source, or Bluetooth when `with_bluetooth`.
    fn command_for_sources(&mut self, command: &str, with_bluetooth: bool) -> (r: Result<(), Error>)
        ensures
            Self::commanded_for_sources(
                *old(self),
                *final(self),
                |s: Source| plays_tracks(s, with_bluetooth),
                command.spec_bytes(),
                r,
            ),
    {
        let source = match self.input_source() {
            Ok(source) => source,
            Err(e) => return Err(e),
        };
        let allowed = match source {
            Source::Net | Source::Usb => true,
            Source::Bluetooth => with_bluetooth,
            _ => false,
        };
        if allowed {
            let none: &[u8] = &[];
            assert(none@ =~= Seq::<u8>::empty());
            self.send_command(command, none)
        } else {
            Err(Error::NotSupportedForDeviceSource)
        }
    }

    /// Stop playing.
    ///
    /// This is only available for Wifi or USB sources. If the source
    /// has been set to something different then this will return the
    /// error `Error::NotSupportedForDeviceSource`.
    pub fn stop(&mut self) -> (r: Result<(), Error>)
        ensures
            Self::commanded_for_sources(
                *old(self),
                *final(self),
                |s: Source| plays_tracks(s, false),
                COMMAND_STP.spec_bytes(),
                r,
            ),
    {
        self.command_for_sources(COMMAND_STP, false)
    }

    /// Play the next track.
    ///
    /// This is only available for Bluetooth, Wifi or USB sources. If the source
    /// has been set to something different then this will return the
    /// error `Error::NotSupportedForDeviceSource`.
    pub fn next_track(&mut self) -> (r: Result<(), Error>)
        ensures
            Self::commanded_for_sources(
                *old(self),
                *final(self),
                |s: Source| plays_tracks(s, true),
                COMMAND_NXT.spec_bytes(),
                r,
            ),
    {
        self.command_for_sources(COMMAND_NXT, true)
    }

    /// Play the previous track; a track that has played for a while starts
    /// again instead.
    ///
    /// This is only available for Bluetooth, Wifi or USB sources. If the source
    /// has been set to something different then this will return the
    /// error `Error::NotSupportedForDeviceSource`.
    pub fn previous_track(&mut self) -> (r: Result<(), Error>)
        ensures
            Self::commanded_for_sources(
                *old(self),
                *final(self),
                |s: Source| plays_tracks(s, true),
                COMMAND_PRE.spec_bytes(),
                r,
            ),
    {
        self.command_for_sources(COMMAND_PRE, true)
    }

    /// Get current bluetooth connection state.
    ///
    /// This is only available for Bluetooth sources. If the source
    /// has been set to something different then this will return the
    /// error `Error::NotSupportedForDeviceSource`.
    pub fn bluetooth_connected(&mut self) -> (r: Result<bool, Error>)
        ensures
            final(self).budget() == old(self).budget(),
            exists|src: Seq<Exchange>|
                #![trigger valid_query(COMMAND_SRC.spec_bytes(), old(self).budget(), src)]
                valid_query(COMMAND_SRC.spec_bytes(), old(self).budget(), src) && {
                    let mid = old(self).link_log() + ops_during(src);
                    match reply_source(query_outcome(COMMAND_SRC.spec_bytes(), src)) {
                        Err(e) => r == Err::<bool, Error>(e) && final(self).last_exchanges() == src
                            && final(self).link_log() == mid,
                        Ok(s) => if s == Source::Bluetooth {
                            &&& valid_query(COMMAND_BTC.spec_bytes(), old(self).budget(), final(self).last_exchanges())
                            &&& final(self).link_log() == mid + ops_during(final(self).last_exchanges())
                            &&& r == then_read(
                                query_outcome(COMMAND_BTC.spec_bytes(), final(self).last_exchanges()),
                                |p: Seq<u8>| flag_from_text(p),
                            )
                        } else {
                            r == Err::<bool, Error>(Error::NotSupportedForDeviceSource)
                                && final(self).last_exchanges() == src && final(self).link_log() == mid
                        },
                    }
                },
    {
        let source = self.input_source();
        let ghost src = self.last_exchanges();
        let ghost mid = self.link_log();
        let source = match source {
            Ok(source) => source,
            Err(e) => return Err(e),
        };
        if source != Source::Bluetooth {
            return Err(Error::NotSupportedForDeviceSource);
        }
        let response = match self.send_query(COMMAND_BTC) {
            Ok(response) => response,
            Err(e) => return Err(e),
        };
        Self::flag(response_text(&response).as_bytes())
    }

    /// Reconnect the current bluetooth device.
    ///
    /// This is only available for Bluetooth sources. If the source
    /// has been set to something different then this will return the
    /// error `Error::NotSupportedForDeviceSource`.
    pub fn connect_bluetooth(&mut self) -> (r: Result<(), Error>)
        ensures
            Self::set_for_bluetooth(*old(self), *final(self), Switch::On, r),
    {
        self.bluetooth_link(Switch::On)
    }

    /// Disconnect the current bluetooth device.
    ///
    /// This is only available for Bluetooth sources. If the source
    /// has been set to something different then this will return the
    /// error `Error::NotSupportedForDeviceSource`.
    pub fn disconnect_bluetooth(&mut self) -> (r: Result<(), Error>)
        ensures
            Self::set_for_bluetooth(*old(self), *final(self), Switch::Off, r),
    {
        self.bluetooth_link(Switch::Off)
    }

    /// The driver `new` is `old` after a query of the source and, when it is
    /// Bluetooth, the Bluetooth connection frame with the byte of `switch`.
    pub open spec fn set_for_bluetooth(old: Self, new: Self, switch: Switch, r: Result<(), Error>) -> bool {
        let mid = old.link_log() + ops_during(new.last_exchanges());
        &&& new.budget() == old.budget()
        &&& valid_query(COMMAND_SRC.spec_bytes(), new.budget(), new.last_exchanges())
        &&& match reply_source(query_outcome(COMMAND_SRC.spec_bytes(), new.last_exchanges())) {
            Err(e) => r == Err::<(), Error>(e) && new.link_log() == mid,
            Ok(s) => if s == Source::Bluetooth {
                command_sent(mid, new.link_log(), frame(COMMAND_BTC.spec_bytes(), seq![switch_byte(switch)]), old.budget(), r)
            } else {
                r == Err::<(), Error>(Error::NotSupportedForDeviceSource) && new.link_log() == mid
            },
        }
    }

    fn bluetooth_link(&mut self, switch: Switch) -> (r: Result<(), Error>)
        ensures
            Self::set_for_bluetooth(*old(self), *final(self), switch, r),
    {
        let source = match self.input_source() {
            Ok(source) => source,
            Err(e) => return Err(e),
        };
        if source != Source::Bluetooth {
            return Err(Error::NotSupportedForDeviceSource);
        }
        let mut buf = [0u8; 1];
        let parameter = switch.to_parameter_str(&mut buf);
        self.send_command(COMMAND_BTC, parameter)
    }
}

} // verus!

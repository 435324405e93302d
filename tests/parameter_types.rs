use std::str::FromStr;

use up2stream_uart::{
    boolean_from_str, Bass, DeviceStatus, Error, PlayPreset, ScalarParameter, Source, Switch,
    SystemControl, Treble, Volume,
};

// Takes an integer value and writes the ascii bytes of its decimal digits.
fn base_10_bytes(mut value: u64, buf: &mut [u8]) -> &[u8] {
    if value == 0 {
        return b"0";
    }
    let mut i = 0;
    while value > 0 {
        buf[i] = (value % 10) as u8 + b'0';
        value /= 10;
        i += 1;
    }
    let slice = &mut buf[..i];
    slice.reverse();
    &*slice
}

#[test]
fn test_base_10_bytes() {
    let mut buf: [u8; 3] = [0; 3];
    assert_eq!(base_10_bytes(34, &mut buf), b"34");
    assert_eq!(base_10_bytes(255, &mut buf), b"255");
    assert_eq!(base_10_bytes(105, &mut buf), b"105");
    assert_eq!(base_10_bytes(100, &mut buf), b"100");
    assert_eq!(base_10_bytes(99, &mut buf), b"99");
    assert_eq!(base_10_bytes(45, &mut buf), b"45");
    assert_eq!(base_10_bytes(10, &mut buf), b"10");
    assert_eq!(base_10_bytes(5, &mut buf), b"5");
    assert_eq!(base_10_bytes(1, &mut buf), b"1");
    assert_eq!(base_10_bytes(0, &mut buf), b"0");
}

#[test]
fn parameter_types_new_volume() -> Result<(), Error> {
    let v1 = Volume::new(34)?;
    let v2 = Volume::new(34)?;

    assert_eq!(v1, v2);

    let v3 = Volume::new(44)?;
    assert_ne!(v1, v3);

    Ok(())
}

#[test]
fn parameter_types_new_volume_limits() {
    let mut vol = Volume::new(101);
    assert!(vol.is_err());

    vol = Volume::new(100);
    assert!(vol.is_ok());

    vol = Volume::new(0);
    assert!(vol.is_ok());
}

#[test]
fn parameter_types_volume_from_str() {
    let mut expected_vol = Volume::new(10).unwrap();

    let vol = Volume::from_str("10").unwrap();
    assert_eq!(vol, expected_vol);

    expected_vol = Volume::new(100).unwrap();
    let vol = Volume::from_str("100").unwrap();
    assert_eq!(vol, expected_vol);

    expected_vol = Volume::new(0).unwrap();
    let vol = Volume::from_str("0").unwrap();
    assert_eq!(vol, expected_vol);

    let vol = Volume::from_str("-10");
    assert!(vol.is_err());

    let vol = Volume::from_str("101");
    assert!(vol.is_err());

    let vol = Volume::from_str("XXX");
    assert!(vol.is_err());
}

#[test]
fn volume_get() {
    let vol = Volume::new(23).unwrap();

    assert_eq!(23, vol.get());
}

#[test]
fn volume_parameter_string() {
    let mut buf = [0; 3];
    assert_eq!(Volume::new(100).unwrap().to_parameter_str(&mut buf), b"100");
    assert_eq!(Volume::new(99).unwrap().to_parameter_str(&mut buf), b"99");
    assert_eq!(Volume::new(75).unwrap().to_parameter_str(&mut buf), b"75");
    assert_eq!(Volume::new(23).unwrap().to_parameter_str(&mut buf), b"23");
    assert_eq!(Volume::new(10).unwrap().to_parameter_str(&mut buf), b"10");
    assert_eq!(Volume::new(7).unwrap().to_parameter_str(&mut buf), b"7");
    assert_eq!(Volume::new(1).unwrap().to_parameter_str(&mut buf), b"1");
    assert_eq!(Volume::new(0).unwrap().to_parameter_str(&mut buf), b"0");
}

#[test]
fn volume_parameter_string2() {
    let test_input: [i8; 8] = [100, 99, 75, 23, 10, 7, 1, 0];

    let expected: [&str; 8] = ["100", "99", "75", "23", "10", "7", "1", "0"];

    let mut buf = [0; 3];
    for n in test_input.iter().enumerate() {
        let vol = Volume::new(*n.1).unwrap().to_parameter_str(&mut buf);
        assert_eq!(vol, expected[n.0].as_bytes());
    }
}

#[test]
fn new_treble() -> Result<(), Error> {
    let t1 = Treble::new(5)?;
    let t2 = Treble::new(5)?;

    assert_eq!(t1, t2);

    let t3 = Treble::new(-2)?;
    assert_ne!(t1, t3);

    Ok(())
}

#[test]
fn new_treble_limits() {
    let mut treble = Treble::new(11);
    assert!(treble.is_err());

    treble = Treble::new(10);
    assert!(treble.is_ok());

    treble = Treble::new(0);
    assert!(treble.is_ok());

    treble = Treble::new(-10);
    assert!(treble.is_ok());

    treble = Treble::new(-11);
    assert!(treble.is_err());
}

#[test]
fn treble_get() {
    let treble = Treble::new(-3).unwrap();

    assert_eq!(-3, treble.get());
}

#[test]
fn treble_from_str() {
    let mut expected_treble = Treble::new(10).unwrap();

    let treble = Treble::from_str("10").unwrap();
    assert_eq!(treble, expected_treble);

    expected_treble = Treble::new(-10).unwrap();
    let treble = Treble::from_str("-10").unwrap();
    assert_eq!(treble, expected_treble);

    expected_treble = Treble::new(0).unwrap();
    let treble = Treble::from_str("0").unwrap();
    assert_eq!(treble, expected_treble);

    let treble = Treble::from_str("-11");
    assert!(treble.is_err());

    let treble = Treble::from_str("101");
    assert!(treble.is_err());

    let treble = Treble::from_str("XXX");
    assert!(treble.is_err());
}

#[test]
fn new_bass() -> Result<(), Error> {
    let b1 = Bass::new(5)?;
    let b2 = Bass::new(5)?;

    assert_eq!(b1, b2);

    let b3 = Bass::new(-2)?;
    assert_ne!(b1, b3);

    Ok(())
}

#[test]
fn new_bass_limits() {
    let mut bass = Bass::new(11);
    assert!(bass.is_err());

    bass = Bass::new(10);
    assert!(bass.is_ok());

    bass = Bass::new(0);
    assert!(bass.is_ok());

    bass = Bass::new(-10);
    assert!(bass.is_ok());

    bass = Bass::new(-11);
    assert!(bass.is_err());
}

#[test]
fn bass_get() {
    let bass = Bass::new(5).unwrap();

    assert_eq!(5, bass.get());
}

#[test]
fn bass_from_str() {
    let mut expected_bass = Bass::new(10).unwrap();

    let bass = Bass::from_str("10").unwrap();
    assert_eq!(bass, expected_bass);

    expected_bass = Bass::new(-10).unwrap();
    let bass = Bass::from_str("-10").unwrap();
    assert_eq!(bass, expected_bass);

    expected_bass = Bass::new(0).unwrap();
    let bass = Bass::from_str("0").unwrap();
    assert_eq!(bass, expected_bass);

    let mut bass = Bass::from_str("-11");
    assert!(bass.is_err());

    bass = Bass::from_str("101");
    assert!(bass.is_err());

    bass = Bass::from_str("XXX");
    assert!(bass.is_err());
}

#[test]
fn bass_parameter_string() {
    let test_input: [i8; 5] = [10, 5, 0, -4, -10];

    let expected: [&str; 5] = ["10", "5", "0", "-4", "-10"];

    let mut buf = [0; 3];
    for n in test_input.iter().enumerate() {
        let bass_parameter = Bass::new(*n.1).unwrap().to_parameter_str(&mut buf);
        assert_eq!(bass_parameter, expected[n.0].as_bytes());
    }
}

#[test]
fn new_preset() -> Result<(), Error> {
    let p1 = PlayPreset::new(5)?;
    let p2 = PlayPreset::new(5)?;

    assert_eq!(p1, p2);

    let p3 = PlayPreset::new(3)?;
    assert_ne!(p1, p3);

    Ok(())
}

#[test]
fn new_preset_limits() {
    let mut preset = PlayPreset::new(11);
    assert!(preset.is_err());

    preset = PlayPreset::new(10);
    assert!(preset.is_ok());

    preset = PlayPreset::new(0);
    assert!(preset.is_ok());

    preset = PlayPreset::new(11);
    assert!(preset.is_err());
}

#[test]
fn preset_from_str() {
    let mut expected_preset = PlayPreset::new(10).unwrap();

    let mut preset = PlayPreset::from_str("10").unwrap();
    assert_eq!(preset, expected_preset);

    expected_preset = PlayPreset::new(0).unwrap();
    preset = PlayPreset::from_str("0").unwrap();
    assert_eq!(preset, expected_preset);

    let mut preset = PlayPreset::from_str("11");
    assert!(preset.is_err());

    preset = PlayPreset::from_str("101");
    assert!(preset.is_err());

    preset = PlayPreset::from_str("XXX");
    assert!(preset.is_err());
}

#[test]
fn switch_from() {
    let mut switch: Switch = Switch::from(true);

    assert_eq!(switch, Switch::On);

    switch = Switch::from(false);

    assert_eq!(switch, Switch::Off);
}

#[test]
fn switch_into() {
    let mut switch = Switch::On;

    let state: bool = switch.to_bool().unwrap();

    assert!(state);

    switch = Switch::Off;

    assert!(!switch.to_bool().unwrap());

    switch = Switch::Toggle;

    assert!(switch.to_bool().is_err());
}

#[test]
fn switch_from_string() {
    assert_eq!(Switch::from_str("0").unwrap(), Switch::Off);
    assert_eq!(Switch::from_str("1").unwrap(), Switch::On);
    assert_eq!(Switch::from_str("T").unwrap(), Switch::Toggle);
    assert!(Switch::from_str("X").is_err());
}

#[test]
fn switch_to_string() {
    let mut buf = [0; 1];

    assert_eq!(Switch::Off.to_parameter_str(&mut buf), b"0");
    assert_eq!(Switch::On.to_parameter_str(&mut buf), b"1");
    assert_eq!(Switch::Toggle.to_parameter_str(&mut buf), b"T");
}

#[test]
fn system_control_to_parameter_str() {
    let mut buf: [u8; 7] = [0; 7];
    assert_eq!(SystemControl::Reboot.to_parameter_str(&mut buf), b"REBOOT");
    assert_eq!(
        SystemControl::Standby.to_parameter_str(&mut buf),
        b"STANDBY"
    );
    assert_eq!(SystemControl::Reset.to_parameter_str(&mut buf), b"RESET");
    assert_eq!(
        SystemControl::Recover.to_parameter_str(&mut buf),
        b"RECOVER"
    );
}

#[test]
fn parameter_types_source_from_string() {
    const NUMBER_SOURCES: usize = 10;
    let source_strings: [&str; NUMBER_SOURCES] = [
        "NET", "USB", "USBDAC", "LINE-IN", "LINE-IN2", "BT", "OPT", "COAX", "I2S", "HDMI",
    ];
    let expected_sources = vec![
        Source::Net,
        Source::Usb,
        Source::UsbDac,
        Source::LineIn,
        Source::LineIn2,
        Source::Bluetooth,
        Source::Optical,
        Source::Coax,
        Source::I2S,
        Source::Hdmi,
    ];
    let mut actual_sources = Vec::new();

    for s in source_strings {
        let source = Source::from_str(s).unwrap();
        actual_sources.push(source);
    }

    assert_eq!(actual_sources, expected_sources);

    let source: Result<Source, Error> = Source::from_str("UNKNOWN");
    assert!(source.is_err());
}

#[test]
fn test_source_from_string() {
    const NUMBER_SOURCES: usize = 10;
    let source_strings: [&str; NUMBER_SOURCES] = [
        "NET", "USB", "USBDAC", "LINE-IN", "LINE-IN2", "BT", "OPT", "COAX", "I2S", "HDMI",
    ];
    let expected_sources = vec![
        Source::Net,
        Source::Usb,
        Source::UsbDac,
        Source::LineIn,
        Source::LineIn2,
        Source::Bluetooth,
        Source::Optical,
        Source::Coax,
        Source::I2S,
        Source::Hdmi,
    ];
    let mut actual_sources = Vec::new();

    for s in source_strings {
        let source = Source::from_str(s).unwrap();
        actual_sources.push(source);
    }

    assert_eq!(actual_sources, expected_sources);

    let source: Result<Source, Error> = Source::from_str("UNKNOWN");
    assert!(source.is_err());
}

#[test]
fn boolean_from_string() {
    assert!(boolean_from_str("1").unwrap());
    assert!(!boolean_from_str("0").unwrap());
    assert!(boolean_from_str("T").is_err());
}

#[test]
fn system_control() {
    let mut buf: [u8; 10] = [0; 10];
    assert_eq!(SystemControl::Reboot.to_parameter_str(&mut buf), b"REBOOT");
    buf = [0; 10];
    assert_eq!(
        SystemControl::Standby.to_parameter_str(&mut buf),
        b"STANDBY"
    );
    buf = [0; 10];
    assert_eq!(SystemControl::Reset.to_parameter_str(&mut buf), b"RESET");
}

#[test]
fn scalar_errors_are_told_apart() {
    assert_eq!(Volume::from_str("101"), Err(Error::OutOfRange));
    assert_eq!(Volume::from_str("200"), Err(Error::InvalidString));
    assert_eq!(Volume::from_str(""), Err(Error::InvalidString));
    assert_eq!(Volume::from_str("+7"), Volume::new(7));
    assert_eq!(Treble::from_str("-"), Err(Error::InvalidString));
    assert_eq!(Treble::from_str("-11"), Err(Error::OutOfRange));
    assert_eq!(Source::from_str("bt"), Err(Error::SourceNotKnown));
    assert_eq!(boolean_from_str("T"), Err(Error::CannotConvert));
    assert_eq!(boolean_from_str("10"), Err(Error::InvalidString));
}

#[test]
fn source_parameter_string() {
    let mut buf = [0; 8];
    assert_eq!(Source::LineIn2.to_parameter_str(&mut buf), b"LINE-IN2");
    assert_eq!(Source::Bluetooth.to_parameter_str(&mut buf), b"BT");
}

#[test]
fn status_field_limit() {
    let base = "BT,0,50,-4,4,1,1,1,0,0";
    let twenty = format!("{}{}", base, ",x".repeat(10));
    let status = DeviceStatus::from_bytes(twenty.as_bytes()).unwrap();
    assert_eq!(status.volume, Volume::new(50).unwrap());
    assert_eq!(status.source, Source::Bluetooth);
    let twenty_one = format!("{}{}", base, ",x".repeat(11));
    assert_eq!(
        DeviceStatus::from_bytes(twenty_one.as_bytes()),
        Err(Error::IllFormedReponse)
    );
    assert_eq!(
        DeviceStatus::from_bytes(b"BT,0,50,-4,4,1,1,1,0"),
        Err(Error::IllFormedReponse)
    );
    assert_eq!(
        DeviceStatus::from_bytes(b"BT,0,50,-4,4,1,1,T,0,0"),
        Err(Error::CannotConvert)
    );
}

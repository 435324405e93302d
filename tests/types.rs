use std::str::FromStr;

use up2stream_uart::types::Volume;

#[test]
fn types_new_volume() -> Result<(), up2stream_uart::Error> {
    let v1 = Volume::new(34)?;
    let v2 = Volume::new(34)?;

    assert_eq!(v1, v2);

    let v3 = Volume::new(44)?;
    assert_ne!(v1, v3);

    Ok(())
}

#[test]
fn types_new_volume_limits() {
    let mut vol = Volume::new(101);
    assert!(vol.is_err());

    vol = Volume::new(100);
    assert!(vol.is_ok());

    vol = Volume::new(0);
    assert!(vol.is_ok());
}

#[test]
fn types_volume_from_str() {
    let mut expected_vol = Volume::new(10).unwrap();

    let vol = Volume::from_str("10").unwrap();
    assert_eq!(vol, expected_vol);

    expected_vol = Volume::new(100).unwrap();
    let vol = Volume::from_str("100").unwrap();
    assert_eq!(vol, expected_vol);

    expected_vol = Volume::new(0).unwrap();
    let vol = Volume::from_str("0").unwrap();
    assert_eq!(vol, expected_vol);

    let vol = Volume::from_str("-10");
    assert!(vol.is_err());

    let vol = Volume::from_str("101");
    assert!(vol.is_err());

    let vol = Volume::from_str("XXX");
    assert!(vol.is_err());
}

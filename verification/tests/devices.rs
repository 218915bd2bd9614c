//! MIDI devices and how a name or number finds one.

use sine_mml::midi::{list_midi_devices_info, resolve_device_id, MidiDeviceInfo, MidiError};

#[test]
fn test_midi_device_info_new() {
    let info = MidiDeviceInfo::new(0, "Test Device".to_string());
    assert_eq!(info.id, 0);
    assert_eq!(info.name, "Test Device");
}

#[test]
fn test_midi_device_info_clone() {
    let info = MidiDeviceInfo::new(1, "Clone Test".to_string());
    let cloned = info.clone();
    assert_eq!(cloned.id, 1);
    assert_eq!(cloned.name, "Clone Test");
}

#[test]
fn test_midi_device_info_debug() {
    let info = MidiDeviceInfo::new(2, "Debug Test".to_string());
    let debug_str = format!("{:?}", info);
    assert!(debug_str.contains("MidiDeviceInfo"));
    assert!(debug_str.contains('2'));
    assert!(debug_str.contains("Debug Test"));
}

fn present() -> Vec<String> {
    vec!["IAC Driver Bus 1".to_string(), "USB MIDI Interface".to_string()]
}

#[test]
fn test_list_midi_devices_info_returns_result() {
    let devices = list_midi_devices_info(&present());
    assert_eq!(devices.len(), 2);
    for (expected_id, info) in devices.iter().enumerate() {
        assert_eq!(info.id, expected_id);
    }
    assert_eq!(devices[1].name, "USB MIDI Interface");
}

#[test]
fn test_resolve_device_id_invalid_numeric() {
    let result = resolve_device_id("99999", &present());
    assert!(result.is_err());

    match result.unwrap_err() {
        MidiError::InvalidDeviceId { id } => {
            assert_eq!(id, 99999);
        }
        other => panic!("Unexpected error: {:?}", other),
    }
}

#[test]
fn test_resolve_device_id_nonexistent_name() {
    let result = resolve_device_id("NonExistentDeviceName12345", &present());
    assert!(result.is_err());
    assert!(matches!(result.unwrap_err(), MidiError::NoDeviceFound));
}

#[test]
fn test_resolve_device_id_with_real_device() {
    let devices = present();
    let id = resolve_device_id("0", &devices).expect("Failed to resolve ID 0");
    assert_eq!(id, 0);

    let first_name = &devices[0];
    let id_by_name = resolve_device_id(first_name, &devices).expect("Failed to resolve by name");
    assert_eq!(id_by_name, 0);
}

#[test]
fn resolve_device_id_by_part_of_a_name() {
    assert_eq!(resolve_device_id("USB", &present()).unwrap(), 1);
    assert_eq!(resolve_device_id("MIDI", &present()).unwrap(), 1);
    assert_eq!(resolve_device_id("Bus 1", &present()).unwrap(), 0);
    assert_eq!(resolve_device_id("+1", &present()).unwrap(), 1);
    assert_eq!(resolve_device_id("", &present()).unwrap(), 0);
}

#[test]
fn resolve_device_id_without_devices() {
    assert!(matches!(resolve_device_id("USB", &vec![]).unwrap_err(), MidiError::NoDeviceFound));
    assert!(matches!(
        resolve_device_id("0", &vec![]).unwrap_err(),
        MidiError::InvalidDeviceId { id: 0 }
    ));
    assert!(matches!(resolve_device_id("", &vec![]).unwrap_err(), MidiError::NoDeviceFound));
}

#[test]
fn resolve_device_id_takes_a_number_too_large_as_a_name() {
    let huge = "340282366920938463463374607431768211456";
    assert!(matches!(
        resolve_device_id(huge, &present()).unwrap_err(),
        MidiError::NoDeviceFound
    ));
    let named = vec![format!("port {}", huge)];
    assert_eq!(resolve_device_id(huge, &named).unwrap(), 0);
}

use mon_osd::system_audio::{c_string_bytes, friendly_status, lacks_volume_control, volume_failure_message};

#[test]
fn recognizes_known_who_error() {
    let msg = friendly_status(0x77686F3F_u32 as i32);
    assert!(msg.contains("no software volume control"));
}

#[test]
fn falls_back_to_raw_status_for_unknown_codes() {
    let msg = friendly_status(-1);
    assert_eq!(msg, "OSStatus -1");
}

#[test]
fn permission_status_is_named() {
    assert_eq!(friendly_status(0x21707269), "permission denied ('!pri')");
    assert_eq!(friendly_status(i32::MIN), format!("OSStatus {}", i32::MIN));
}

#[test]
fn volume_failure_messages() {
    let m = volume_failure_message(false, Some("LG HDR 4K"), 0x77686F3F);
    assert!(m.starts_with("failed to get volume on \"LG HDR 4K\": device has no software volume control"));
    assert!(lacks_volume_control(&m));
    let m = volume_failure_message(true, None, 7);
    assert_eq!(m, "failed to set volume on \"current output device\": OSStatus 7");
    assert!(!lacks_volume_control(&m));
    assert!(!lacks_volume_control(""));
}

#[test]
fn c_string_stops_at_nul() {
    assert_eq!(c_string_bytes(b"abc\0def"), b"abc".to_vec());
    assert_eq!(c_string_bytes(b"abc"), b"abc".to_vec());
    assert_eq!(c_string_bytes(b"\0"), Vec::<u8>::new());
}

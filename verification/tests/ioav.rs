use mon_osd::ioav::{parse_edid_identity, DisplayIdentity};

fn edid() -> [u8; 128] {
    let mut e = [0u8; 128];
    e[..8].copy_from_slice(&[0x00, 0xFF, 0xFF, 0xFF, 0xFF, 0xFF, 0xFF, 0x00]);
    e[8] = 0x06;
    e[9] = 0x12;
    e[10] = 0x3c;
    e[11] = 0x7a;
    e[12] = 0x01;
    e[13] = 0x01;
    e[14] = 0x01;
    e[15] = 0x01;
    e
}

#[test]
fn edid_identity_fields() {
    assert_eq!(
        parse_edid_identity(&edid()),
        Some(DisplayIdentity { vendor: 1554, model: 31292, serial: 16843009 })
    );
}

#[test]
fn edid_without_header_is_rejected() {
    let mut e = edid();
    e[7] = 0x01;
    assert_eq!(parse_edid_identity(&e), None);
}

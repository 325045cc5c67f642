use mon_osd::control::{
    apply_delta, feature_code, route_feature, FeatureRoute, parse_focused_monitor_name, parse_mute_state,
    resolve_cursor_display, resolve_display_index, vcp_code, CursorDisplay, DisplaySelector,
};
use mon_osd::ddc;
use mon_osd::display_map::DisplayMap;
use mon_osd::ioav::DisplayIdentity;

#[test]
fn vcp_code_accepts_known_features_case_insensitively() {
    assert_eq!(vcp_code("volume"), Ok(ddc::VCP_VOLUME));
    assert_eq!(vcp_code("VOLUME"), Ok(ddc::VCP_VOLUME));
    assert_eq!(vcp_code("luminance"), Ok(ddc::VCP_LUMINANCE));
    assert_eq!(vcp_code("brightness"), Ok(ddc::VCP_LUMINANCE)); // alias
    assert_eq!(vcp_code("contrast"), Ok(ddc::VCP_CONTRAST));
}

#[test]
fn vcp_code_rejects_unknown_features() {
    assert!(vcp_code("saturation").is_err());
    assert!(vcp_code("").is_err());
}

#[test]
fn change_clamps_to_valid_range() {
    assert_eq!(apply_delta(95, 100, 20), 100);
    assert_eq!(apply_delta(5, 100, -20), 0);
}

#[test]
fn apply_delta_inside_range_is_exact() {
    assert_eq!(apply_delta(50, 100, -10), 40);
    assert_eq!(apply_delta(0, 0, 5), 0);
    assert_eq!(apply_delta(65535, 65535, 0), 65535);
}

#[test]
fn unknown_feature_message_is_lowercased() {
    assert_eq!(
        vcp_code("Saturation"),
        Err("unknown feature 'saturation' (expected luminance|contrast|volume)".to_string())
    );
    assert_eq!(feature_code("Volume").is_err(), true);
}

#[test]
fn mute_states() {
    for s in ["on", "ON", "true", "1"] {
        assert_eq!(parse_mute_state(s), Ok(true));
    }
    for s in ["off", "False", "0"] {
        assert_eq!(parse_mute_state(s), Ok(false));
    }
    assert_eq!(
        parse_mute_state("Maybe"),
        Err("unknown mute state 'maybe' (expected on|off)".to_string())
    );
}

#[test]
fn display_selectors() {
    assert_eq!(resolve_display_index("cursor"), Ok(DisplaySelector::Cursor));
    assert_eq!(resolve_display_index("CuRsOr"), Ok(DisplaySelector::Cursor));
    assert_eq!(resolve_display_index("2"), Ok(DisplaySelector::Index(2)));
    assert_eq!(resolve_display_index("+7"), Ok(DisplaySelector::Index(7)));
    assert_eq!(
        resolve_display_index(" 2"),
        Err("invalid --display value ' 2' (expected a number or \"cursor\")".to_string())
    );
    assert!(resolve_display_index("-1").is_err());
}

#[test]
fn cursor_display_resolution() {
    let ident = DisplayIdentity { vendor: 1554, model: 31292, serial: 16843009 };
    let mut map = DisplayMap::new();
    assert_eq!(
        resolve_cursor_display(None, &map),
        Err("could not determine which display the cursor is on".to_string())
    );
    let builtin = CursorDisplay { display_id: 1, builtin: Some(true), identity: ident };
    assert!(resolve_cursor_display(Some(builtin), &map).unwrap_err().starts_with("cursor is on the built-in display"));
    let external = CursorDisplay { display_id: 0x2b, builtin: Some(false), identity: ident };
    assert_eq!(
        resolve_cursor_display(Some(external), &map),
        Err("no mapping for the display under the cursor (CGDirectDisplayID 0x2b) -- move the mouse onto each monitor once and run `mon-osd map <index>` (see `mon-osd list` for indices)".to_string())
    );
    map.set(ident, 3, None);
    assert_eq!(resolve_cursor_display(Some(external), &map), Ok(3));
}

#[test]
fn focused_monitor_label() {
    assert_eq!(parse_focused_monitor_name("2 | DELL U2720Q \nmore|x\n"), Some("DELL U2720Q".to_string()));
    assert_eq!(parse_focused_monitor_name("no bar here\n1|a"), None);
    assert_eq!(parse_focused_monitor_name(""), None);
    assert_eq!(parse_focused_monitor_name("1|"), Some(String::new()));
}

#[test]
fn feature_routes() {
    assert_eq!(route_feature("VOLUME", true), FeatureRoute::SystemVolume);
    assert_eq!(route_feature("volume", false), FeatureRoute::SystemVolume);
    assert_eq!(route_feature("Brightness", true), FeatureRoute::NativeBrightness);
    assert_eq!(route_feature("contrast", true), FeatureRoute::BuiltinUnsupported);
    assert_eq!(route_feature("bogus", true), FeatureRoute::BuiltinUnsupported);
    assert_eq!(route_feature("contrast", false), FeatureRoute::Ddc);
    assert_eq!(route_feature("luminance", false), FeatureRoute::Ddc);
}

//! Command decisions: which VCP code a feature names, how a relative change
//! is clamped, how a mute state and a `--display` selector are read, and
//! which display the cursor selects.
use crate::ddc::{VCP_CONTRAST, VCP_LUMINANCE, VCP_VOLUME};
use crate::display_map::DisplayMap;
use crate::ioav::DisplayIdentity;
use crate::text::{
    ascii_lower, chars_of, decimal, digit_val, eq_ignore_ascii_case, lemma_radix_text, find_char, find_in, hex_prefixed, parse_uint, parse_uint_in,
    push_hex_prefixed, split_once, text_eq_ignore_ascii_case, text_equals, trim, trim_range,
};
use vstd::prelude::*;
use vstd::string::{StrSliceExecFns, StringExecFns};

verus! {

// ---------------------------------------------------------------------------
// Lowercasing
// ---------------------------------------------------------------------------

/// What `str::to_lowercase` returns for a string: its full Unicode lowercase
/// mapping, which depends on the characters alone.
pub uninterp spec fn lowercase_of(s: Seq<char>) -> Seq<char>;

/// Calls `str::to_lowercase`. Claimed: the result's characters are
/// `lowercase_of` of the argument's characters, nothing more.
#[verifier::external_body]
fn lowercase(s: &str) -> (r: String)
    ensures
        r@ == lowercase_of(s@),
{
    s.to_lowercase()
}

// ---------------------------------------------------------------------------
// Features
// ---------------------------------------------------------------------------

/// The VCP code that an already-lowercased feature name selects.
pub open spec fn feature_code_of(lowered: Seq<char>) -> Option<u8> {
    if lowered == "luminance"@ || lowered == "brightness"@ {
        Some(VCP_LUMINANCE)
    } else if lowered == "contrast"@ {
        Some(VCP_CONTRAST)
    } else if lowered == "volume"@ {
        Some(VCP_VOLUME)
    } else {
        None
    }
}

/// The error for an unknown (lowercased) feature name.
pub open spec fn unknown_feature_message(lowered: Seq<char>) -> Seq<char> {
    "unknown feature '"@ + lowered + "' (expected luminance|contrast|volume)"@
}

/// The VCP code for an already-lowercased feature name: `luminance` (alias
/// `brightness`), `contrast` or `volume`.
pub fn feature_code(lowered: &str) -> (r: Result<u8, String>)
    ensures
        match feature_code_of(lowered@) {
            Some(code) => r == Ok::<u8, String>(code),
            None => r matches Err(msg) && msg@ == unknown_feature_message(lowered@),
        },
{
    if text_equals(lowered, "luminance") || text_equals(lowered, "brightness") {
        Ok(VCP_LUMINANCE)
    } else if text_equals(lowered, "contrast") {
        Ok(VCP_CONTRAST)
    } else if text_equals(lowered, "volume") {
        Ok(VCP_VOLUME)
    } else {
        let mut msg = String::from_str("unknown feature '");
        msg.append(lowered);
        msg.append("' (expected luminance|contrast|volume)");
        Err(msg)
    }
}

/// The VCP code for a feature name, matched case-insensitively through
/// `to_lowercase`.
pub fn vcp_code(feature: &str) -> (r: Result<u8, String>)
    ensures
        match feature_code_of(lowercase_of(feature@)) {
            Some(code) => r == Ok::<u8, String>(code),
            None => r matches Err(msg) && msg@ == unknown_feature_message(lowercase_of(feature@)),
        },
{
    let lowered = lowercase(feature);
    feature_code(lowered.as_str())
}

// ---------------------------------------------------------------------------
// Relative changes
// ---------------------------------------------------------------------------

/// `x` limited to `[lo, hi]`.
pub open spec fn clamp(x: int, lo: int, hi: int) -> int {
    if x < lo {
        lo
    } else if x > hi {
        hi
    } else {
        x
    }
}

/// The value after changing `current` by `delta`, clamped to `[0, max]`.
pub fn apply_delta(current: u16, max: u16, delta: i32) -> (r: u16)
    requires
        current + delta <= i32::MAX,
    ensures
        r == clamp(current + delta, 0, max as int),
        0 <= r <= max,
{
    let sum = current as i32 + delta;
    if sum < 0 {
        0
    } else if sum > max as i32 {
        max
    } else {
        sum as u16
    }
}

// ---------------------------------------------------------------------------
// Mute
// ---------------------------------------------------------------------------

/// The mute setting that an already-lowercased state names.
pub open spec fn mute_state_of(lowered: Seq<char>) -> Option<bool> {
    if lowered == "on"@ || lowered == "true"@ || lowered == "1"@ {
        Some(true)
    } else if lowered == "off"@ || lowered == "false"@ || lowered == "0"@ {
        Some(false)
    } else {
        None
    }
}

/// The error for an unknown (lowercased) mute state.
pub open spec fn unknown_mute_message(lowered: Seq<char>) -> Seq<char> {
    "unknown mute state '"@ + lowered + "' (expected on|off)"@
}

/// The mute setting for an already-lowercased state: `on`/`true`/`1` or
/// `off`/`false`/`0`.
pub fn mute_setting(lowered: &str) -> (r: Result<bool, String>)
    ensures
        match mute_state_of(lowered@) {
            Some(b) => r == Ok::<bool, String>(b),
            None => r matches Err(msg) && msg@ == unknown_mute_message(lowered@),
        },
{
    if text_equals(lowered, "on") || text_equals(lowered, "true") || text_equals(lowered, "1") {
        Ok(true)
    } else if text_equals(lowered, "off") || text_equals(lowered, "false") || text_equals(
        lowered,
        "0",
    ) {
        Ok(false)
    } else {
        let mut msg = String::from_str("unknown mute state '");
        msg.append(lowered);
        msg.append("' (expected on|off)");
        Err(msg)
    }
}

/// The mute setting for a state, matched case-insensitively through
/// `to_lowercase`.
pub fn parse_mute_state(state: &str) -> (r: Result<bool, String>)
    ensures
        match mute_state_of(lowercase_of(state@)) {
            Some(b) => r == Ok::<bool, String>(b),
            None => r matches Err(msg) && msg@ == unknown_mute_message(lowercase_of(state@)),
        },
{
    let lowered = lowercase(state);
    mute_setting(lowered.as_str())
}

// ---------------------------------------------------------------------------
// Display selection
// ---------------------------------------------------------------------------

/// What a `--display` value selects.
#[derive(Clone, Copy, Debug, PartialEq, Eq, Structural)]
pub enum DisplaySelector {
    /// The display under the mouse cursor.
    Cursor,
    /// The display at this AV index.
    Index(usize),
}

/// What `--display` value `selector` selects, if it is valid: `cursor` in
/// any ASCII case, or a decimal index.
pub open spec fn selector_of(selector: Seq<char>) -> Option<DisplaySelector> {
    if eq_ignore_ascii_case(selector, "cursor"@) {
        Some(DisplaySelector::Cursor)
    } else {
        match parse_uint(selector, 10, usize::MAX as nat) {
            Some(n) => Some(DisplaySelector::Index(n as usize)),
            None => None,
        }
    }
}

/// The error for an invalid `--display` value.
pub open spec fn invalid_selector_message(selector: Seq<char>) -> Seq<char> {
    "invalid --display value '"@ + selector + "' (expected a number or \"cursor\")"@
}

/// Reads a `--display` value: `cursor` (any ASCII case) or an AV index.
pub fn resolve_display_index(selector: &str) -> (r: Result<DisplaySelector, String>)
    ensures
        match selector_of(selector@) {
            Some(s) => r == Ok::<DisplaySelector, String>(s),
            None => r matches Err(msg) && msg@ == invalid_selector_message(selector@),
        },
{
    if text_eq_ignore_ascii_case(selector, "cursor") {
        return Ok(DisplaySelector::Cursor);
    }
    let v = chars_of(selector);
    assert(v@.subrange(0, v@.len() as int) =~= selector@);
    match parse_uint_in(&v, 0, v.len(), 10, usize::MAX as u64) {
        Some(n) => Ok(DisplaySelector::Index(n as usize)),
        None => {
            let mut msg = String::from_str("invalid --display value '");
            msg.append(selector);
            msg.append("' (expected a number or \"cursor\")");
            Err(msg)
        },
    }
}

/// Every decimal index, as `{}` prints it, selects the display at that
/// index: the selector is read as a `usize`, 0 included.
pub proof fn lemma_selector_reads_indices(n: usize)
    ensures
        selector_of(decimal(n as nat)) == Some(DisplaySelector::Index(n)),
{
    let t = decimal(n as nat);
    lemma_radix_text(n as nat, 10);
    // Digits spell no form of "cursor": their first character is no letter.
    assert(digit_val(t[0]) < 10);
    reveal_strlit("cursor");
    assert(!eq_ignore_ascii_case(t, "cursor"@)) by {
        if t.len() == 6 {
            assert(ascii_lower(t[0]) == t[0]);
            assert(ascii_lower("cursor"@[0]) == 'c');
        }
    }
}

/// What is known of the display under the mouse cursor.
#[derive(Clone, Copy, Debug, PartialEq, Eq, Structural)]
pub struct CursorDisplay {
    /// Session-local CoreGraphics display ID.
    pub display_id: u32,
    /// Whether it is the built-in panel, if that could be told.
    pub builtin: Option<bool>,
    /// Its EDID-derived identity.
    pub identity: DisplayIdentity,
}

pub open spec fn cursor_unknown_message() -> Seq<char> {
    "could not determine which display the cursor is on"@
}

pub open spec fn cursor_builtin_message() -> Seq<char> {
    "cursor is on the built-in display -- DDC/CI isn't supported on Apple's own panels, only external monitors over USB-C/DisplayPort"@
}

pub open spec fn cursor_unmapped_message(display_id: u32) -> Seq<char> {
    "no mapping for the display under the cursor (CGDirectDisplayID "@ + hex_prefixed(
        display_id as nat,
    ) + ") -- move the mouse onto each monitor once and run `mon-osd map <index>` (see `mon-osd list` for indices)"@
}

/// The AV index for the display under the cursor: the display must be
/// known, not the built-in panel (which has no DDC/CI), and mapped.
pub fn resolve_cursor_display(cursor: Option<CursorDisplay>, map: &DisplayMap) -> (r: Result<
    usize,
    String,
>)
    ensures
        match cursor {
            None => r matches Err(msg) && msg@ == cursor_unknown_message(),
            Some(c) => if c.builtin == Some(true) {
                r matches Err(msg) && msg@ == cursor_builtin_message()
            } else if map@.contains_key(c.identity) {
                r == Ok::<usize, String>(map@[c.identity].0)
            } else {
                r matches Err(msg) && msg@ == cursor_unmapped_message(c.display_id)
            },
        },
{
    match cursor {
        None => Err(String::from_str("could not determine which display the cursor is on")),
        Some(c) => {
            if c.builtin == Some(true) {
                return Err(
                    String::from_str(
                        "cursor is on the built-in display -- DDC/CI isn't supported on Apple's own panels, only external monitors over USB-C/DisplayPort",
                    ),
                );
            }
            match map.get(c.identity) {
                Some(i) => Ok(i),
                None => {
                    let mut msg = String::from_str(
                        "no mapping for the display under the cursor (CGDirectDisplayID ",
                    );
                    push_hex_prefixed(&mut msg, c.display_id as u64);
                    msg.append(
                        ") -- move the mouse onto each monitor once and run `mon-osd map <index>` (see `mon-osd list` for indices)",
                    );
                    Err(msg)
                },
            }
        },
    }
}

// ---------------------------------------------------------------------------
// Focused-monitor label
// ---------------------------------------------------------------------------

/// The label in `aerospace list-monitors --focused` output: the trimmed text
/// after the first `|` on the first line.
pub open spec fn focused_monitor_name(output: Seq<char>) -> Option<Seq<char>> {
    if output.len() == 0 {
        None
    } else {
        match split_once(output.take(find_char(output, '\n')), '|') {
            Some((_, name)) => Some(trim(name)),
            None => None,
        }
    }
}

/// Reads the focused monitor's label from `aerospace` output.
pub fn parse_focused_monitor_name(output: &str) -> (r: Option<String>)
    ensures
        match focused_monitor_name(output@) {
            Some(n) => r matches Some(s) && s@ == n,
            None => r is None,
        },
{
    let v = chars_of(output);
    if v.len() == 0 {
        return None;
    }
    let end = find_in(&v, 0, v.len(), '\n');
    assert(v@.subrange(0, v@.len() as int) =~= output@);
    let ghost line = output@.take(end as int);
    assert(v@.subrange(0, end as int) =~= line);
    let bar = find_in(&v, 0, end, '|');
    if bar == end {
        return None;
    }
    assert(line.skip(bar + 1) =~= v@.subrange(bar + 1, end as int));
    let (a, b) = trim_range(&v, bar + 1, end);
    let name = output.substring_char(a, b);
    Some(String::from_str(name))
}

// ---------------------------------------------------------------------------
// Routing
// ---------------------------------------------------------------------------

/// Which control path a get/set/change of a feature takes.
#[derive(Clone, Copy, Debug, PartialEq, Eq, Structural)]
pub enum FeatureRoute {
    /// System output volume through CoreAudio (DDC only as a fallback).
    SystemVolume,
    /// Built-in panel brightness through DisplayServices.
    NativeBrightness,
    /// A feature the built-in panel has no control for.
    BuiltinUnsupported,
    /// DDC/CI to an external display.
    Ddc,
}

/// The path for `feature`: volume is always system-wide; with the cursor
/// selected and on the built-in panel, only luminance can be controlled
/// (natively); everything else goes over DDC/CI.
pub open spec fn route_of(feature: Seq<char>, cursor_on_builtin: bool) -> FeatureRoute {
    if eq_ignore_ascii_case(feature, "volume"@) {
        FeatureRoute::SystemVolume
    } else if cursor_on_builtin {
        if feature_code_of(lowercase_of(feature)) == Some(VCP_LUMINANCE) {
            FeatureRoute::NativeBrightness
        } else {
            FeatureRoute::BuiltinUnsupported
        }
    } else {
        FeatureRoute::Ddc
    }
}

/// Routing, stated feature by feature: a feature spelled `volume` in any
/// ASCII case is always system volume; otherwise, with the built-in panel
/// selected, every name of the luminance code (`luminance`, `brightness`, in
/// any case `to_lowercase` folds) is controlled natively and any other name
/// is unsupported there; without it, everything goes over DDC/CI.
pub proof fn lemma_route_by_feature(feature: Seq<char>, cursor_on_builtin: bool)
    ensures
        eq_ignore_ascii_case(feature, "volume"@) ==> route_of(feature, cursor_on_builtin)
            == FeatureRoute::SystemVolume,
        !eq_ignore_ascii_case(feature, "volume"@) && cursor_on_builtin && feature_code_of(
            lowercase_of(feature),
        ) == Some(VCP_LUMINANCE) ==> route_of(feature, cursor_on_builtin)
            == FeatureRoute::NativeBrightness,
        !eq_ignore_ascii_case(feature, "volume"@) && cursor_on_builtin && (lowercase_of(feature)
            == "luminance"@ || lowercase_of(feature) == "brightness"@) ==> route_of(
            feature,
            cursor_on_builtin,
        ) == FeatureRoute::NativeBrightness,
        !eq_ignore_ascii_case(feature, "volume"@) && cursor_on_builtin && feature_code_of(
            lowercase_of(feature),
        ) != Some(VCP_LUMINANCE) ==> route_of(feature, cursor_on_builtin)
            == FeatureRoute::BuiltinUnsupported,
        !eq_ignore_ascii_case(feature, "volume"@) && !cursor_on_builtin ==> route_of(
            feature,
            cursor_on_builtin,
        ) == FeatureRoute::Ddc,
{
}

/// The control path for a get/set/change of `feature`, given whether
/// `--display cursor` selects the built-in panel.
pub fn route_feature(feature: &str, cursor_on_builtin: bool) -> (r: FeatureRoute)
    ensures
        r == route_of(feature@, cursor_on_builtin),
{
    if text_eq_ignore_ascii_case(feature, "volume") {
        FeatureRoute::SystemVolume
    } else if cursor_on_builtin {
        match vcp_code(feature) {
            Ok(code) => {
                if code == VCP_LUMINANCE {
                    FeatureRoute::NativeBrightness
                } else {
                    FeatureRoute::BuiltinUnsupported
                }
            },
            Err(_) => FeatureRoute::BuiltinUnsupported,
        }
    } else {
        FeatureRoute::Ddc
    }
}

} // verus!

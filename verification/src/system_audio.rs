//! Reporting for system output volume: readable text for CoreAudio status
//! codes, the error message for a failed volume read or write, the check
//! that such a message means the device has no software volume control
//! (which triggers the DDC fallback), and device-name bytes.
use crate::text::{push_signed, signed_decimal};
use vstd::prelude::*;
use vstd::string::StringExecFns;

verus! {

/// `kAudioHardwareUnknownPropertyError` ('who?').
pub const STATUS_UNKNOWN_PROPERTY: i32 = 0x77686F3F;

/// `kAudioDevicePermissionsError` ('!pri').
pub const STATUS_PERMISSION_DENIED: i32 = 0x21707269;

/// What a message says when the device has no software volume control.
pub open spec fn no_volume_control_marker() -> Seq<char> {
    "no software volume control"@
}

pub open spec fn unknown_property_text() -> Seq<char> {
    "device has no software volume control ('who?' -- kAudioHardwareUnknownPropertyError; common on HDMI/DisplayPort monitor speakers, which are often fixed-volume)"@
}

/// Readable text for a CoreAudio status code.
pub open spec fn status_text(status: i32) -> Seq<char> {
    if status == STATUS_UNKNOWN_PROPERTY {
        unknown_property_text()
    } else if status == STATUS_PERMISSION_DENIED {
        "permission denied ('!pri')"@
    } else {
        "OSStatus "@ + signed_decimal(status as int)
    }
}

/// Readable text for a CoreAudio status code: the two codes that volume
/// calls commonly fail with are named, any other is shown as a number.
pub fn friendly_status(status: i32) -> (s: String)
    ensures
        s@ == status_text(status),
{
    if status == STATUS_UNKNOWN_PROPERTY {
        String::from_str(
            "device has no software volume control ('who?' -- kAudioHardwareUnknownPropertyError; common on HDMI/DisplayPort monitor speakers, which are often fixed-volume)",
        )
    } else if status == STATUS_PERMISSION_DENIED {
        String::from_str("permission denied ('!pri')")
    } else {
        let mut s = String::from_str("OSStatus ");
        push_signed(&mut s, status as i64);
        s
    }
}

/// The device name shown when the real one cannot be read.
pub open spec fn fallback_device_name() -> Seq<char> {
    "current output device"@
}

/// The message for a failed volume read (`setting` false) or write.
pub open spec fn volume_failure_text(setting: bool, device: Option<Seq<char>>, status: i32) -> Seq<
    char,
> {
    (if setting {
        "failed to set volume on \""@
    } else {
        "failed to get volume on \""@
    }) + match device {
        Some(n) => n,
        None => fallback_device_name(),
    } + "\": "@ + status_text(status)
}

/// The message for a failed volume read or write on a device.
pub fn volume_failure_message(setting: bool, device: Option<&str>, status: i32) -> (s: String)
    ensures
        s@ == volume_failure_text(
            setting,
            match device {
                Some(n) => Some(n@),
                None => None,
            },
            status,
        ),
{
    let mut s = if setting {
        String::from_str("failed to set volume on \"")
    } else {
        String::from_str("failed to get volume on \"")
    };
    match device {
        Some(n) => s.append(n),
        None => s.append("current output device"),
    }
    s.append("\": ");
    let f = friendly_status(status);
    s.append(f.as_str());
    s
}

/// `s` contains `pat` somewhere.
pub open spec fn contains_text(s: Seq<char>, pat: Seq<char>) -> bool {
    exists|i: int| 0 <= i <= s.len() - pat.len() && #[trigger] s.subrange(i, i + pat.len()) == pat
}

/// Whether an error message says that the device has no software volume
/// control.
pub fn lacks_volume_control(message: &str) -> (b: bool)
    ensures
        b == contains_text(message@, no_volume_control_marker()),
{
    let v = crate::text::chars_of(message);
    let p = crate::text::chars_of("no software volume control");
    if p.len() > v.len() {
        assert forall|i: int| 0 <= i <= v@.len() - p@.len() implies #[trigger] message@.subrange(
            i,
            i + p@.len(),
        ) != no_volume_control_marker() by {}
        return false;
    }
    proof {
        reveal_strlit("no software volume control");
    }
    let mut i: usize = 0;
    let last = v.len() - p.len();
    while i <= last
        invariant
            v@ == message@,
            p@ == no_volume_control_marker(),
            p@.len() <= v@.len(),
            p@.len() > 0,
            v@.len() <= usize::MAX,
            last == v@.len() - p@.len(),
            0 <= i <= last + 1,
            forall|k: int| 0 <= k < i ==> #[trigger] v@.subrange(k, k + p@.len()) != p@,
        decreases last + 1 - i,
    {
        let end = i + p.len();
        if crate::text::range_equals(&v, i, end, "no software volume control") {
            return true;
        }
        i = i + 1;
    }
    false
}

/// Every failed volume read or write on a device without software volume
/// control yields a message that `lacks_volume_control` recognises,
/// whatever the device is called.
pub proof fn lemma_unknown_property_triggers_fallback(setting: bool, device: Option<Seq<char>>)
    ensures
        contains_text(
            volume_failure_text(setting, device, STATUS_UNKNOWN_PROPERTY),
            no_volume_control_marker(),
        ),
{
    let msg = volume_failure_text(setting, device, STATUS_UNKNOWN_PROPERTY);
    let head = (if setting {
        "failed to set volume on \""@
    } else {
        "failed to get volume on \""@
    }) + match device {
        Some(n) => n,
        None => fallback_device_name(),
    } + "\": "@;
    let t = unknown_property_text();
    assert(msg == head + t);
    reveal_strlit(
        "device has no software volume control ('who?' -- kAudioHardwareUnknownPropertyError; common on HDMI/DisplayPort monitor speakers, which are often fixed-volume)",
    );
    reveal_strlit("no software volume control");
    let k: int = head.len() as int + 11;
    let p = no_volume_control_marker();
    let pl: int = p.len() as int;
    assert(t.subrange(11, 11 + pl) =~= p);
    assert(msg.subrange(k, k + pl) =~= t.subrange(11, 11 + pl));
}

/// The bytes of a NUL-terminated buffer before its first NUL (all of it
/// when there is none).
pub open spec fn before_nul(buf: Seq<u8>) -> Seq<u8> {
    let n = choose|n: int|
        0 <= n <= buf.len() && (forall|j: int| 0 <= j < n ==> buf[j] != 0) && (n < buf.len()
            ==> buf[n] == 0);
    buf.take(n)
}

/// The bytes of `buf` before its first NUL.
pub fn c_string_bytes(buf: &[u8]) -> (r: Vec<u8>)
    ensures
        r@ == before_nul(buf@),
{
    let mut out: Vec<u8> = Vec::new();
    let mut i: usize = 0;
    while i < buf.len() && buf[i] != 0
        invariant
            0 <= i <= buf@.len(),
            forall|j: int| 0 <= j < i ==> buf@[j] != 0,
            out@ == buf@.take(i as int),
        decreases buf@.len() - i,
    {
        out.push(buf[i]);
        i = i + 1;
        assert(out@ =~= buf@.take(i as int));
    }
    let ghost n = choose|n: int|
        0 <= n <= buf@.len() && (forall|j: int| 0 <= j < n ==> buf@[j] != 0) && (n < buf@.len()
            ==> buf@[n] == 0);
    assert(0 <= i <= buf@.len() && (forall|j: int| 0 <= j < i ==> buf@[j] != 0) && (i < buf@.len()
        ==> buf@[i as int] == 0));
    assert(n == i) by {
        if n < i {
            assert(buf@[n] != 0);
        } else if n > i {
            assert(buf@[i as int] != 0);
        }
    }
    out
}

} // verus!

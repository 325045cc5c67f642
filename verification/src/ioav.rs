//! Display identification: the EDID-derived vendor/model/serial identity that
//! persistent display mappings are keyed on, and what a display listing holds.
use vstd::prelude::*;

verus! {

/// I2C address of a display's DDC/CI endpoint.
pub const DDC_CHIP_ADDRESS: u32 = 0x37;

/// Standard I2C address for reading a display's EDID over DDC.
pub const EDID_CHIP_ADDRESS: u32 = 0x50;

/// Length of the EDID base block.
pub const EDID_LEN: usize = 128;

/// The fixed eight-byte header that every EDID base block starts with.
pub open spec fn edid_magic() -> Seq<u8> {
    seq![0x00u8, 0xFFu8, 0xFFu8, 0xFFu8, 0xFFu8, 0xFFu8, 0xFFu8, 0x00u8]
}

/// Vendor/model/serial from a display's EDID. These are burned into the
/// monitor's firmware, so they survive power cycles, sleep/wake and
/// reconnects, unlike session-local display IDs. The values match what
/// CoreGraphics reports for the same display.
#[derive(Debug, Clone, Copy, PartialEq, Eq, Hash, Structural)]
pub struct DisplayIdentity {
    pub vendor: u32,
    pub model: u32,
    pub serial: u32,
}

/// A display found in the I/O registry.
pub struct DisplayInfo {
    pub index: usize,
    pub registry_id: u64,
    /// EDID identity read live over DDC; `None` if the read or parse failed.
    pub identity: Option<DisplayIdentity>,
}

/// The identity an EDID block holds: big-endian manufacturer ID in bytes
/// 8-9, little-endian product code in bytes 10-11, little-endian serial in
/// bytes 12-15.
pub open spec fn edid_identity(edid: Seq<u8>) -> DisplayIdentity {
    DisplayIdentity {
        vendor: (edid[8] as nat * 256 + edid[9] as nat) as u32,
        model: (edid[11] as nat * 256 + edid[10] as nat) as u32,
        serial: (edid[12] as nat + edid[13] as nat * 256 + edid[14] as nat * 65536 + edid[15] as nat
            * 16777216) as u32,
    }
}

/// Splitting off the low byte of a number.
proof fn lemma_two_bytes(x: int, hi: int, lo: int)
    requires
        0 <= hi,
        0 <= lo < 256,
        x == hi * 256 + lo,
    ensures
        x / 256 == hi,
        x % 256 == lo,
{
    vstd::arithmetic::div_mod::lemma_fundamental_div_mod_converse(x, 256, hi, lo);
}

/// What the identity says of the block's bytes: the manufacturer ID has
/// byte 8 as its high byte and byte 9 as its low byte; the product code has
/// byte 10 low and byte 11 high; the serial's bytes, lowest first, are bytes
/// 12, 13, 14 and 15. No byte outside 8-15 matters.
pub proof fn lemma_edid_identity_bytes(edid: Seq<u8>)
    requires
        edid.len() >= 16,
    ensures
        edid_identity(edid).vendor as int / 256 == edid[8] as int,
        edid_identity(edid).vendor as int % 256 == edid[9] as int,
        edid_identity(edid).model as int % 256 == edid[10] as int,
        edid_identity(edid).model as int / 256 == edid[11] as int,
        edid_identity(edid).serial as int % 256 == edid[12] as int,
        edid_identity(edid).serial as int / 256 % 256 == edid[13] as int,
        edid_identity(edid).serial as int / 65536 % 256 == edid[14] as int,
        edid_identity(edid).serial as int / 16777216 == edid[15] as int,
        forall|other: Seq<u8>|
            other.len() >= 16 && (forall|j: int| 8 <= j < 16 ==> other[j] == edid[j])
                ==> edid_identity(other) == edid_identity(edid),
{
    let id = edid_identity(edid);
    let (a, b, c, d) = (edid[12] as int, edid[13] as int, edid[14] as int, edid[15] as int);
    let x = a + b * 256 + c * 65536 + d * 16777216;
    assert(0 <= x < 0x1_0000_0000) by (nonlinear_arith)
        requires
            0 <= a < 256,
            0 <= b < 256,
            0 <= c < 256,
            0 <= d < 256,
            x == a + b * 256 + c * 65536 + d * 16777216,
    ;
    assert(id.serial as int == x);
    let y = b + c * 256 + d * 65536;
    let z = c + d * 256;
    assert(x == y * 256 + a && y == z * 256 + b) by (nonlinear_arith)
        requires
            x == a + b * 256 + c * 65536 + d * 16777216,
            y == b + c * 256 + d * 65536,
            z == c + d * 256,
    ;
    assert(y >= 0 && z >= 0) by (nonlinear_arith)
        requires
            0 <= b,
            0 <= c,
            0 <= d,
            y == b + c * 256 + d * 65536,
            z == c + d * 256,
    ;
    lemma_two_bytes(x, y, a);
    lemma_two_bytes(y, z, b);
    lemma_two_bytes(z, d, c);
    vstd::arithmetic::div_mod::lemma_div_denominator(x, 256, 256);
    vstd::arithmetic::div_mod::lemma_div_denominator(x, 65536, 256);
    assert(x / 65536 == z);
    assert(x / 16777216 == d);
    lemma_two_bytes(id.vendor as int, edid[8] as int, edid[9] as int);
    lemma_two_bytes(id.model as int, edid[11] as int, edid[10] as int);
}

/// Extracts the identity from an EDID base block; `None` when the block does
/// not start with the EDID header.
pub fn parse_edid_identity(edid: &[u8; 128]) -> (r: Option<DisplayIdentity>)
    ensures
        r is None <==> edid@.take(8) != edid_magic(),
        r matches Some(id) ==> id == edid_identity(edid@),
{
    let magic: [u8; 8] = [0x00, 0xFF, 0xFF, 0xFF, 0xFF, 0xFF, 0xFF, 0x00];
    let mut i: usize = 0;
    while i < 8
        invariant
            0 <= i <= 8,
            magic@ == edid_magic(),
            forall|j: int| 0 <= j < i ==> edid@[j] == edid_magic()[j],
        decreases 8 - i,
    {
        if edid[i] != magic[i] {
            assert(edid@.take(8)[i as int] != edid_magic()[i as int]);
            return None;
        }
        i = i + 1;
    }
    assert(edid@.take(8) =~= edid_magic());
    let vendor = (edid[8] as u32) * 256 + edid[9] as u32;
    let model = (edid[11] as u32) * 256 + edid[10] as u32;
    let serial = edid[12] as u32 + (edid[13] as u32) * 256 + (edid[14] as u32) * 65536 + (
    edid[15] as u32) * 16777216;
    Some(DisplayIdentity { vendor, model, serial })
}

} // verus!

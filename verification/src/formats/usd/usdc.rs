//! USDC (binary crate) header recognition.

use vstd::prelude::*;

verus! {

/// The eight magic bytes that open every USDC file: `PXR-USDC`.
pub open spec fn usdc_magic() -> Seq<u8> {
    seq![0x50u8, 0x58u8, 0x52u8, 0x2Du8, 0x55u8, 0x53u8, 0x44u8, 0x43u8]
}

/// USDC file version.
#[derive(Debug, Clone, Copy)]
pub struct UsdcVersion {
    pub major: u8,
    pub minor: u8,
    pub patch: u8,
}

/// USDC file header.
#[derive(Debug, Clone, Copy)]
pub struct UsdcHeader {
    /// File version
    pub version: UsdcVersion,
    /// String table offset
    pub strings_offset: u64,
    /// Token table offset
    pub tokens_offset: u64,
    /// Field sets offset
    pub field_sets_offset: u64,
    /// Paths offset
    pub paths_offset: u64,
    /// Specs offset
    pub specs_offset: u64,
}

/// Whether `data` starts with the USDC magic.
pub open spec fn spec_is_usdc(data: Seq<u8>) -> bool {
    data.len() >= 8 && data.subrange(0, 8) == usdc_magic()
}

/// Check if data is a USDC file.
pub fn is_usdc(data: &[u8]) -> (r: bool)
    ensures
        r == spec_is_usdc(data@),
{
    if data.len() < 8 {
        return false;
    }
    let ok = data[0] == 0x50 && data[1] == 0x58 && data[2] == 0x52 && data[3] == 0x2D
        && data[4] == 0x55 && data[5] == 0x53 && data[6] == 0x44 && data[7] == 0x43;
    proof {
        if ok {
            assert(data@.subrange(0, 8) =~= usdc_magic());
        } else {
            if data@.subrange(0, 8) == usdc_magic() {
                assert(data@.subrange(0, 8)[0] == data@[0]);
                assert(data@[1] == data@.subrange(0, 8)[1]);
                assert(data@[2] == data@.subrange(0, 8)[2]);
                assert(data@[3] == data@.subrange(0, 8)[3]);
                assert(data@[4] == data@.subrange(0, 8)[4]);
                assert(data@[5] == data@.subrange(0, 8)[5]);
                assert(data@[6] == data@.subrange(0, 8)[6]);
                assert(data@[7] == data@.subrange(0, 8)[7]);
            }
        }
    }
    ok
}

/// Parse the USDC header: present exactly when the magic is there and the
/// data holds the full 64-byte header; the version is read from bytes 8..11
/// and the table offsets are left at zero.
pub fn parse_header(data: &[u8]) -> (r: Option<UsdcHeader>)
    ensures
        r is Some <==> (spec_is_usdc(data@) && data@.len() >= 64),
        r matches Some(h) ==> {
            &&& h.version.major == data@[8]
            &&& h.version.minor == data@[9]
            &&& h.version.patch == data@[10]
            &&& h.strings_offset == 0
            &&& h.tokens_offset == 0
            &&& h.field_sets_offset == 0
            &&& h.paths_offset == 0
            &&& h.specs_offset == 0
        },
{
    if !is_usdc(data) || data.len() < 64 {
        return None;
    }
    let version = UsdcVersion { major: data[8], minor: data[9], patch: data[10] };
    Some(UsdcHeader {
        version,
        strings_offset: 0,
        tokens_offset: 0,
        field_sets_offset: 0,
        paths_offset: 0,
        specs_offset: 0,
    })
}

} // verus!

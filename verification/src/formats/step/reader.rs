//! STEP reader: recognising a Part 21 file.

use vstd::prelude::*;
use crate::bytes::{bytes_start_with, copy_range};
use crate::text::{chars_of, contains_chars, contains_seq, str_to_uppercase, to_uppercase, utf8_str};
use vstd::utf8::{decode_utf8, valid_utf8};

verus! {

/// How many leading bytes the format check looks at.
pub const STEP_CHECK_LEN: usize = 8192;

/// The bytes the format check looks at: at most the first 8192, without a
/// leading UTF-8 byte-order mark.
pub open spec fn step_check_bytes(data: Seq<u8>) -> Seq<u8> {
    let head = data.take(if data.len() < 8192 { data.len() as int } else { 8192 });
    if head.len() >= 3 && head.take(3) == seq![0xEFu8, 0xBBu8, 0xBFu8] {
        head.skip(3)
    } else {
        head
    }
}

/// Whether `data` looks like a STEP file: its checked bytes are UTF-8 and
/// contain "ISO-10303-21" in any letter case, or "FILE_DESCRIPTION".
pub open spec fn step_can_read(data: Seq<u8>) -> bool {
    let check = step_check_bytes(data);
    valid_utf8(check) && (contains_seq(str_to_uppercase(decode_utf8(check)), "ISO-10303-21"@)
        || contains_seq(decode_utf8(check), "FILE_DESCRIPTION"@))
}

/// Reader for STEP (ISO 10303-21) files.
pub struct StepReader;

impl StepReader {
    /// Create a new STEP reader.
    pub fn new() -> Self {
        StepReader
    }

    /// The format name.
    pub fn name(&self) -> (r: &'static str)
        ensures
            r@ == "step"@,
    {
        "step"
    }

    /// The file extensions this reader handles: "step", "stp" and "p21".
    pub fn extensions(&self) -> (r: Vec<&'static str>)
        ensures
            r@.len() == 3,
            r@[0]@ == "step"@,
            r@[1]@ == "stp"@,
            r@[2]@ == "p21"@,
    {
        let mut v: Vec<&'static str> = Vec::new();
        v.push("step");
        v.push("stp");
        v.push("p21");
        v
    }

    /// Whether `data` looks like a STEP file (see `step_can_read`).
    pub fn can_read(&self, data: &[u8]) -> (r: bool)
        ensures
            r == step_can_read(data@),
    {
        let check_len = if data.len() < STEP_CHECK_LEN {
            data.len()
        } else {
            STEP_CHECK_LEN
        };
        let head = copy_range(data, 0, check_len);
        let bom: [u8; 3] = [0xEFu8, 0xBBu8, 0xBFu8];
        proof {
            assert(bom@ == seq![0xEFu8, 0xBBu8, 0xBFu8]);
            assert(head@ == data@.take(check_len as int));
        }
        let check = if bytes_start_with(head.as_slice(), bom.as_slice()) {
            copy_range(head.as_slice(), 3, head.len())
        } else {
            head
        };
        proof {
            assert(check@ == step_check_bytes(data@));
        }
        match utf8_str(check.as_slice()) {
            Some(text) => {
                let upper = to_uppercase(text);
                let upper_chars = chars_of(upper.as_str());
                let text_chars = chars_of(text);
                let iso = chars_of("ISO-10303-21");
                let desc = chars_of("FILE_DESCRIPTION");
                contains_chars(&upper_chars, &iso) || contains_chars(&text_chars, &desc)
            },
            None => false,
        }
    }
}

} // verus!

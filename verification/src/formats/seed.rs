//! Seed documents: recognising them, and the reader's and writer's names.

use vstd::prelude::*;
use crate::text::{chars_of, contains_chars, contains_seq, utf8_str};
use vstd::utf8::{decode_utf8, valid_utf8};

verus! {

/// Reader for Seed documents.
pub struct SeedReader;

/// Whether `data` looks like a Seed document: UTF-8 text containing
/// "@meta", "Frame:" or "Part:".
pub open spec fn seed_can_read(data: Seq<u8>) -> bool {
    valid_utf8(data) && (contains_seq(decode_utf8(data), "@meta"@) || contains_seq(
        decode_utf8(data),
        "Frame:"@,
    ) || contains_seq(decode_utf8(data), "Part:"@))
}

impl SeedReader {
    /// Create a new Seed reader.
    pub fn new() -> Self {
        SeedReader
    }

    /// The format name.
    pub fn name(&self) -> (r: &'static str)
        ensures
            r@ == "seed"@,
    {
        "seed"
    }

    /// The file extensions this reader handles: "seed".
    pub fn extensions(&self) -> (r: Vec<&'static str>)
        ensures
            r@.len() == 1,
            r@[0]@ == "seed"@,
    {
        let mut v: Vec<&'static str> = Vec::new();
        v.push("seed");
        v
    }

    /// Whether `data` looks like a Seed document (see `seed_can_read`).
    pub fn can_read(&self, data: &[u8]) -> (r: bool)
        ensures
            r == seed_can_read(data@),
    {
        match utf8_str(data) {
            Some(text) => {
                let cs = chars_of(text);
                let meta = chars_of("@meta");
                let frame = chars_of("Frame:");
                let part = chars_of("Part:");
                contains_chars(&cs, &meta) || contains_chars(&cs, &frame) || contains_chars(
                    &cs,
                    &part,
                )
            },
            None => false,
        }
    }
}

/// Writer for Seed documents.
pub struct SeedWriter;

impl SeedWriter {
    /// Create a new Seed writer.
    pub fn new() -> Self {
        SeedWriter
    }

    /// The format name.
    pub fn name(&self) -> (r: &'static str)
        ensures
            r@ == "seed"@,
    {
        "seed"
    }

    /// The primary file extension.
    pub fn extension(&self) -> (r: &'static str)
        ensures
            r@ == "seed"@,
    {
        "seed"
    }
}

} // verus!

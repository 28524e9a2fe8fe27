//! The options a volume is opened with.
//!
//! A configuration is built once, before a volume is opened, and handed to
//! `BMPDisk::open`. Changing it afterwards has no effect on a volume that
//! is already open.
use vstd::prelude::*;
use vstd::string::*;
use crate::coordinate::Traversal;
use crate::error::Error;

verus! {

/// Where the backing image lives, how large a new one is, and how bytes are
/// laid out on the pixels.
pub struct BMPConfig {
    /// The path of the backing image.
    pub filename: String,
    /// Whether each colour channel is a page of its own (three bytes per
    /// pixel) or the volume is greyscale (one byte per pixel).
    pub split_channels: bool,
    /// The side of a newly created raster. An existing backing image keeps
    /// its own size.
    pub dimensions: u32,
    /// The order in which addresses walk over the raster.
    pub traversal: Traversal,
}

/// Whether `c` is one of the digits `0` to `9`.
pub open spec fn is_digit(c: char) -> bool {
    '0' <= c && c <= '9'
}

/// The number that a sequence of decimal digits denotes.
pub open spec fn decimal(digits: Seq<char>) -> nat
    decreases digits.len(),
{
    if digits.len() == 0 {
        0
    } else {
        (10 * decimal(digits.drop_last()) + (digits.last() as u32 - '0' as u32)) as nat
    }
}

/// The digits of a number text: the text without its leading `+`, if it
/// has one.
pub open spec fn digits_of(text: Seq<char>) -> Seq<char> {
    if text.len() > 0 && text[0] == '+' {
        text.skip(1)
    } else {
        text
    }
}

/// The 32-bit number that `text` denotes: an optional `+`, then one or more
/// decimal digits whose value fits in 32 bits. Any other text denotes none.
pub open spec fn parse_u32(text: Seq<char>) -> Option<u32> {
    let digits = digits_of(text);
    if digits.len() > 0 && (forall|i: int| 0 <= i < digits.len() ==> is_digit(#[trigger] digits[i]))
        && decimal(digits) <= u32::MAX {
        Some(decimal(digits) as u32)
    } else {
        None
    }
}

/// Appending digits never makes the number smaller.
pub proof fn lemma_decimal_grows(digits: Seq<char>, n: int)
    requires
        0 <= n <= digits.len(),
        forall|i: int| 0 <= i < digits.len() ==> is_digit(#[trigger] digits[i]),
    ensures
        decimal(digits.take(n)) <= decimal(digits),
    decreases digits.len() - n,
{
    if n == digits.len() {
        assert(digits.take(n) =~= digits);
    } else {
        lemma_decimal_grows(digits, n + 1);
        let longer = digits.take(n + 1);
        assert(longer.drop_last() =~= digits.take(n));
        assert(is_digit(digits[n]));
        assert(longer.last() == digits[n]);
    }
}

/// Reads a 32-bit decimal number, as the standard parser for `u32` does:
/// an optional `+`, then digits only, at least one, with a value that fits.
pub fn parse_dimension(value: &str) -> (r: Option<u32>)
    ensures
        r == parse_u32(value@),
{
    broadcast use is_ascii_spec_bytes;

    let ghost text = value@;
    let ghost digits = digits_of(text);
    if !value.is_ascii() {
        proof {
            let i = choose|i: int| 0 <= i < text.len() && !('\0' <= #[trigger] text[i] <= '\u{7f}');
            if text[0] == '+' {
                assert(!is_digit(digits[i - 1]));
            } else {
                assert(!is_digit(digits[i]));
            }
        }
        return None;
    }
    let bytes = value.as_bytes();
    let len = bytes.len();
    assert(len == text.len());
    assert(forall|i: int| 0 <= i < len ==> bytes@[i] == text[i] as u8);
    let start: usize = if len > 0 && bytes[0] == 43u8 {
        1
    } else {
        0
    };
    assert(digits =~= text.skip(start as int));
    if start == len {
        return None;
    }
    let mut i: usize = start;
    let mut acc: u64 = 0;
    while i < len
        invariant
            start <= i <= len,
            len == text.len(),
            len == bytes@.len(),
            text == value@,
            digits == digits_of(text),
            digits == text.skip(start as int),
            forall|k: int| 0 <= k < len ==> bytes@[k] == text[k] as u8,
            forall|k: int| 0 <= k < len ==> '\0' <= #[trigger] text[k] <= '\u{7f}',
            forall|k: int| 0 <= k < i - start ==> is_digit(#[trigger] digits[k]),
            acc == decimal(digits.take(i - start)),
            acc <= u32::MAX,
        decreases len - i,
    {
        let b = bytes[i];
        let ghost c = text[i as int];
        assert(c == digits[i - start]);
        assert('\0' <= c <= '\u{7f}');
        assert(b == c as u8);
        if b < 48u8 || b > 57u8 {
            assert(!is_digit(digits[i - start]));
            return None;
        }
        assert(is_digit(c));
        let next: u64 = acc * 10 + (b - 48u8) as u64;
        proof {
            let longer = digits.take(i - start + 1);
            assert(longer.drop_last() =~= digits.take(i - start));
            assert(longer.last() == c);
            assert(next == decimal(longer));
        }
        if next > u32::MAX as u64 {
            proof {
                if forall|k: int| 0 <= k < digits.len() ==> is_digit(#[trigger] digits[k]) {
                    lemma_decimal_grows(digits, i - start + 1);
                }
            }
            return None;
        }
        acc = next;
        i = i + 1;
    }
    assert(digits.take(i - start) =~= digits);
    Some(acc as u32)
}

/// Whether two texts are the same.
pub fn same_text(a: &str, b: &str) -> (same: bool)
    ensures
        same == (a@ == b@),
{
    let left = a.to_owned();
    let right = b.to_owned();
    left == right
}

impl Default for BMPConfig {
    /// The configuration in force when no option is given: the backing
    /// image at `/var/tmp/bmpdisk.bmp`, a 4096 by 4096 raster, channel-split
    /// addressing along the Hilbert curve.
    fn default() -> (c: BMPConfig)
        ensures
            c.filename@ == "/var/tmp/bmpdisk.bmp"@,
            c.split_channels,
            c.dimensions == 4096,
            c.traversal == Traversal::Hilbert,
    {
        BMPConfig {
            filename: "/var/tmp/bmpdisk.bmp".to_owned(),
            split_channels: true,
            dimensions: 4096,
            traversal: Traversal::Hilbert,
        }
    }
}

impl BMPConfig {
    /// Sets one option. `filename` takes the path of the backing image,
    /// `dimensions` the side of a new raster as a decimal number, and
    /// `no-split-channels` switches to greyscale addressing whatever its
    /// value. Any other key is accepted and ignored. A `dimensions` value
    /// that is no 32-bit number is refused and changes nothing.
    pub fn config(&mut self, key: &str, value: &str) -> (r: Result<(), Error>)
        ensures
            final(self).traversal == old(self).traversal,
            if key@ == "filename"@ {
                &&& r is Ok
                &&& final(self).filename@ == value@
                &&& final(self).split_channels == old(self).split_channels
                &&& final(self).dimensions == old(self).dimensions
            } else if key@ == "no-split-channels"@ {
                &&& r is Ok
                &&& final(self).filename == old(self).filename
                &&& !final(self).split_channels
                &&& final(self).dimensions == old(self).dimensions
            } else if key@ == "dimensions"@ {
                match parse_u32(value@) {
                    Some(n) => {
                        &&& r is Ok
                        &&& final(self).filename == old(self).filename
                        &&& final(self).split_channels == old(self).split_channels
                        &&& final(self).dimensions == n
                    },
                    None => r == Err::<(), Error>(Error::InvalidDimensions) && *final(self) == *old(
                        self,
                    ),
                }
            } else {
                r is Ok && *final(self) == *old(self)
            },
    {
        if same_text(key, "filename") {
            self.filename = value.to_owned();
        } else if same_text(key, "no-split-channels") {
            self.split_channels = false;
        } else if same_text(key, "dimensions") {
            match parse_dimension(value) {
                Some(n) => {
                    self.dimensions = n;
                },
                None => {
                    return Err(Error::InvalidDimensions);
                },
            }
        }
        Ok(())
    }
}

} // verus!

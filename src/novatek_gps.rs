//! Validation and field access for one embedded GPS record.
//!
//! Layout (offsets in bytes; integers little-endian unless noted):
//! 0..4 total length (big-endian), 4..8 `"free"`, 8..12 `"GPS "`,
//! 16..40 hour, minute, second, year since 2000, month, day,
//! 40 satellite lock `'A'`, 41 `'N'`/`'S'`, 42 `'E'`/`'W'`,
//! 44..60 latitude, longitude, speed (knots), bearing as IEEE-754 singles.

use vstd::prelude::*;
use crate::datetime::{date_exists, time_exists, GpsDateTime, MAX_YEAR};
use vstd::utf8::{decode_utf8, valid_utf8};

verus! {

/// Smallest length of a record: everything up to the end of the bearing.
pub const MIN_SIZE: usize = 60;

/// The box type tag a record carries at offset 4.
pub const BOX_TYPE: &'static str = "free";

/// The magic word a record carries at offset 8.
pub const MAGIC_WORD: &'static str = "GPS ";

/// Records store the year as an offset from this one.
pub const YEAR_OFFSET: u32 = 2000;

/// Why a buffer is not a well-formed record.
#[derive(Debug, Clone, PartialEq, Eq)]
pub enum Error {
    /// Shorter than `MIN_SIZE`.
    MissingBytes,
    /// The buffer's length, then the length that its first four bytes declare.
    InvalidBoxSize(usize, usize),
    /// The box type found, then the one expected.
    InvalidBoxType(String, &'static str),
    /// The magic word found, then the one expected.
    InvalidMagicWord(String, &'static str),
    /// The device had no position fix.
    NoSatLock,
    /// A hemisphere byte other than `N`/`S` or `E`/`W`.
    InvalidHemisphere,
    /// A well-formed record whose date and time fields name no existing
    /// timestamp.
    InvalidDateTime,
}

/// The unsigned integer stored most significant byte first in `b[at..at + 4]`.
pub open spec fn be_u32(b: Seq<u8>, at: int) -> int {
    b[at] * 0x1000000 + b[at + 1] * 0x10000 + b[at + 2] * 0x100 + b[at + 3]
}

/// The unsigned integer stored least significant byte first in `b[at..at + 4]`.
pub open spec fn le_u32(b: Seq<u8>, at: int) -> int {
    b[at] + b[at + 1] * 0x100 + b[at + 2] * 0x10000 + b[at + 3] * 0x1000000
}

/// Relies on byteorder's `BigEndian::read_u32`: the first four bytes, most
/// significant first (it panics on fewer than four).
#[verifier::external_body]
fn read_u32_be(buf: &[u8]) -> (r: u32)
    requires
        buf@.len() >= 4,
    ensures
        r as int == be_u32(buf@, 0),
{
    <byteorder::BigEndian as byteorder::ByteOrder>::read_u32(buf)
}

/// Relies on byteorder's `LittleEndian::read_u32`: the first four bytes, least
/// significant first (it panics on fewer than four).
#[verifier::external_body]
fn read_u32_le(buf: &[u8]) -> (r: u32)
    requires
        buf@.len() >= 4,
    ensures
        r as int == le_u32(buf@, 0),
{
    <byteorder::LittleEndian as byteorder::ByteOrder>::read_u32(buf)
}

/// What `String::from_utf8_lossy` gives for `b`: its text, each invalid
/// sequence replaced by U+FFFD.
pub uninterp spec fn lossy_utf8(b: Seq<u8>) -> Seq<char>;

/// Relies on `String::from_utf8_lossy`: the result depends on the bytes
/// alone, and well-formed UTF-8 comes back as the characters it encodes.
#[verifier::external_body]
fn utf8_lossy(b: &[u8]) -> (r: String)
    ensures
        r@ == lossy_utf8(b@),
        valid_utf8(b@) ==> r@ == decode_utf8(b@),
{
    String::from_utf8_lossy(b).into_owned()
}

/// `"free"` as bytes.
pub open spec fn box_type_bytes() -> Seq<u8> {
    seq![0x66u8, 0x72u8, 0x65u8, 0x65u8]
}

/// `"GPS "` as bytes.
pub open spec fn magic_word_bytes() -> Seq<u8> {
    seq![0x47u8, 0x50u8, 0x53u8, 0x20u8]
}

/// The four bytes of `b` starting at `at`.
pub open spec fn tag(b: Seq<u8>, at: int) -> Seq<u8> {
    b.subrange(at, at + 4)
}

pub open spec fn len_ok(b: Seq<u8>) -> bool {
    b.len() >= MIN_SIZE
}

/// The declared length equals the buffer's own.
pub open spec fn box_size_ok(b: Seq<u8>) -> bool {
    be_u32(b, 0) == b.len()
}

pub open spec fn box_type_ok(b: Seq<u8>) -> bool {
    tag(b, 4) == box_type_bytes()
}

pub open spec fn magic_word_ok(b: Seq<u8>) -> bool {
    tag(b, 8) == magic_word_bytes()
}

/// Byte 40 is `'A'`.
pub open spec fn sat_lock_ok(b: Seq<u8>) -> bool {
    b[40] == 0x41
}

/// Byte 41 is `'N'` or `'S'`, byte 42 is `'E'` or `'W'`.
pub open spec fn hemisphere_ok(b: Seq<u8>) -> bool {
    (b[41] == 0x4E || b[41] == 0x53) && (b[42] == 0x45 || b[42] == 0x57)
}

/// Every check of a record passes.
pub open spec fn is_valid_record(b: Seq<u8>) -> bool {
    len_ok(b) && box_size_ok(b) && box_type_ok(b) && magic_word_ok(b) && sat_lock_ok(b)
        && hemisphere_ok(b)
}

/// The text of a four-byte tag: its characters where it is UTF-8, else its
/// lossy decoding.
pub open spec fn tag_text(t: Seq<u8>) -> Seq<char> {
    if valid_utf8(t) {
        decode_utf8(t)
    } else {
        lossy_utf8(t)
    }
}

/// `e` is the error reported for a four-byte tag at `at` that differs from
/// the expected one: the text found, then the text expected.
pub open spec fn tag_error(b: Seq<u8>, at: int, e: Error, expected: Seq<char>) -> bool {
    match e {
        Error::InvalidBoxType(found, exp) => at == 4 && found@ == tag_text(tag(b, at)) && exp@
            == expected,
        Error::InvalidMagicWord(found, exp) => at == 8 && found@ == tag_text(tag(b, at)) && exp@
            == expected,
        _ => false,
    }
}

/// The latitude hemisphere of a record.
#[derive(Debug, Copy, Clone, PartialEq, Eq, Structural, PartialOrd, Ord, Hash)]
pub enum LatitudeHemisphere {
    North,
    South,
}

/// The longitude hemisphere of a record.
#[derive(Debug, Copy, Clone, PartialEq, Eq, Structural, PartialOrd, Ord, Hash)]
pub enum LongitudeHemisphere {
    East,
    West,
}

impl LatitudeHemisphere {
    /// The variant's name.
    pub fn name(&self) -> (r: &'static str)
        ensures
            r@ == (match self {
                LatitudeHemisphere::North => "North"@,
                LatitudeHemisphere::South => "South"@,
            }),
    {
        match self {
            LatitudeHemisphere::North => "North",
            LatitudeHemisphere::South => "South",
        }
    }
}

impl LongitudeHemisphere {
    /// The variant's name.
    pub fn name(&self) -> (r: &'static str)
        ensures
            r@ == (match self {
                LongitudeHemisphere::East => "East"@,
                LongitudeHemisphere::West => "West"@,
            }),
    {
        match self {
            LongitudeHemisphere::East => "East",
            LongitudeHemisphere::West => "West",
        }
    }
}

/// `e` is the error for `b`: that of the first check, in order, that fails.
pub open spec fn rejected_with(b: Seq<u8>, e: Error) -> bool {
    if !len_ok(b) {
        e == Error::MissingBytes
    } else if !box_size_ok(b) {
        e == Error::InvalidBoxSize(b.len() as usize, be_u32(b, 0) as usize)
    } else if !box_type_ok(b) {
        tag_error(b, 4, e, BOX_TYPE@)
    } else if !magic_word_ok(b) {
        tag_error(b, 8, e, MAGIC_WORD@)
    } else if !sat_lock_ok(b) {
        e == Error::NoSatLock
    } else {
        e == Error::InvalidHemisphere
    }
}

/// The six date and time fields of `b` name an existing timestamp.
pub open spec fn datetime_exists(b: Seq<u8>) -> bool {
    date_exists(le_u32(b, 28) + YEAR_OFFSET, le_u32(b, 32), le_u32(b, 36)) && time_exists(
        le_u32(b, 16),
        le_u32(b, 20),
        le_u32(b, 24),
    )
}

/// `t` holds the date and time fields of `b`.
pub open spec fn datetime_of(b: Seq<u8>, t: GpsDateTime) -> bool {
    &&& t.year == le_u32(b, 28) + YEAR_OFFSET
    &&& t.month == le_u32(b, 32)
    &&& t.day == le_u32(b, 36)
    &&& t.hour == le_u32(b, 16)
    &&& t.minute == le_u32(b, 20)
    &&& t.second == le_u32(b, 24)
}

/// A view of one GPS record over its bytes.
#[derive(Debug, Clone)]
pub struct NovatekGps {
    buffer: Vec<u8>,
}

impl View for NovatekGps {
    type V = Seq<u8>;

    closed spec fn view(&self) -> Seq<u8> {
        self.buffer@
    }
}

impl NovatekGps {
    /// Wraps `buffer` without any check.
    pub fn new_unchecked(buffer: Vec<u8>) -> (r: NovatekGps)
        ensures
            r@ == buffer@,
    {
        NovatekGps { buffer }
    }

    /// Wraps `buffer` once every check passes, else reports the first failure.
    pub fn new(buffer: Vec<u8>) -> (r: Result<NovatekGps, Error>)
        ensures
            r is Ok <==> is_valid_record(buffer@),
            r matches Ok(g) ==> g@ == buffer@,
            r matches Err(e) ==> rejected_with(buffer@, e),
            buffer@.len() < MIN_SIZE ==> r == Err::<NovatekGps, Error>(Error::MissingBytes),
            buffer@.len() >= MIN_SIZE && be_u32(buffer@, 0) != buffer@.len() ==> r == Err::<
                NovatekGps,
                Error,
            >(Error::InvalidBoxSize(buffer@.len() as usize, be_u32(buffer@, 0) as usize)),
    {
        let g = Self::new_unchecked(buffer);
        match g.check_len() {
            Err(e) => return Err(e),
            Ok(()) => {},
        }
        match g.check_box_size() {
            Err(e) => return Err(e),
            Ok(()) => {},
        }
        match g.check_box_type() {
            Err(e) => return Err(e),
            Ok(()) => {},
        }
        match g.check_magic_word() {
            Err(e) => return Err(e),
            Ok(()) => {},
        }
        match g.check_sat_lock() {
            Err(e) => return Err(e),
            Ok(()) => {},
        }
        match g.check_hemisphere() {
            Err(e) => return Err(e),
            Ok(()) => {},
        }
        Ok(g)
    }

    /// `MissingBytes` when the buffer is shorter than `MIN_SIZE`.
    pub fn check_len(&self) -> (r: Result<(), Error>)
        ensures
            r is Ok <==> len_ok(self@),
            r is Err ==> r == Err::<(), Error>(Error::MissingBytes),
    {
        let len = self.buffer.len();
        if len < MIN_SIZE {
            Err(Error::MissingBytes)
        } else {
            Ok(())
        }
    }

    /// `InvalidBoxSize(buffer length, declared length)` when the two differ.
    pub fn check_box_size(&self) -> (r: Result<(), Error>)
        requires
            self@.len() >= 4,
        ensures
            r is Ok <==> box_size_ok(self@),
            r is Err ==> r == Err::<(), Error>(
                Error::InvalidBoxSize(self@.len() as usize, be_u32(self@, 0) as usize),
            ),
    {
        let box_size = self.box_size() as usize;
        let buf_len = self.buffer.len();
        if box_size != buf_len {
            Err(Error::InvalidBoxSize(buf_len, box_size))
        } else {
            Ok(())
        }
    }

    /// An error when bytes 4..8 are not `"free"`.
    pub fn check_box_type(&self) -> (r: Result<(), Error>)
        requires
            self@.len() >= 8,
        ensures
            r is Ok <==> box_type_ok(self@),
            r matches Err(e) ==> tag_error(self@, 4, e, BOX_TYPE@),
    {
        if self.tag_is(4, [0x66, 0x72, 0x65, 0x65]) {
            Ok(())
        } else {
            Err(Error::InvalidBoxType(self.box_type(), BOX_TYPE))
        }
    }

    /// An error when bytes 8..12 are not `"GPS "`.
    pub fn check_magic_word(&self) -> (r: Result<(), Error>)
        requires
            self@.len() >= 12,
        ensures
            r is Ok <==> magic_word_ok(self@),
            r matches Err(e) ==> tag_error(self@, 8, e, MAGIC_WORD@),
    {
        if self.tag_is(8, [0x47, 0x50, 0x53, 0x20]) {
            Ok(())
        } else {
            Err(Error::InvalidMagicWord(self.magic_word(), MAGIC_WORD))
        }
    }

    /// `NoSatLock` unless byte 40 is `'A'`.
    pub fn check_sat_lock(&self) -> (r: Result<(), Error>)
        requires
            self@.len() > 40,
        ensures
            r is Ok <==> sat_lock_ok(self@),
            r is Err ==> r == Err::<(), Error>(Error::NoSatLock),
    {
        if self.sat_lock() {
            Ok(())
        } else {
            Err(Error::NoSatLock)
        }
    }

    /// `InvalidHemisphere` unless bytes 41 and 42 name hemispheres.
    pub fn check_hemisphere(&self) -> (r: Result<(), Error>)
        requires
            self@.len() > 42,
        ensures
            r is Ok <==> hemisphere_ok(self@),
            r is Err ==> r == Err::<(), Error>(Error::InvalidHemisphere),
    {
        match self.latitude_hemisphere() {
            Err(e) => return Err(e),
            Ok(_) => {},
        }
        match self.longitude_hemisphere() {
            Err(e) => return Err(e),
            Ok(_) => {},
        }
        Ok(())
    }

    /// Whether the four bytes at `at` are `t`.
    fn tag_is(&self, at: usize, t: [u8; 4]) -> (r: bool)
        requires
            at + 4 <= self@.len(),
            at <= MIN_SIZE,
        ensures
            r <==> tag(self@, at as int) == t@,
    {
        let b = &self.buffer;
        let r = b[at] == t[0] && b[at + 1] == t[1] && b[at + 2] == t[2] && b[at + 3] == t[3];
        assert(r ==> tag(self@, at as int) =~= t@);
        r
    }

    /// The length that the first four bytes declare (big-endian).
    pub fn box_size(&self) -> (r: u32)
        requires
            self@.len() >= 4,
        ensures
            r as int == be_u32(self@, 0),
    {
        let data = self.buffer.as_slice();
        read_u32_be(&data[0..4])
    }

    /// Bytes 4..8 as text (lossily decoded where they are not UTF-8).
    pub fn box_type(&self) -> (r: String)
        requires
            self@.len() >= 8,
        ensures
            r@ == tag_text(tag(self@, 4)),
    {
        let data = self.buffer.as_slice();
        utf8_lossy(&data[4..8])
    }

    /// Bytes 8..12 as text (lossily decoded where they are not UTF-8).
    pub fn magic_word(&self) -> (r: String)
        requires
            self@.len() >= 12,
        ensures
            r@ == tag_text(tag(self@, 8)),
    {
        let data = self.buffer.as_slice();
        utf8_lossy(&data[8..12])
    }
    /// Hours, little-endian at offset 16.
    pub fn hour(&self) -> (r: u32)
        requires
            self@.len() >= 20,
        ensures
            r as int == le_u32(self@, 16),
    {
        let data = self.buffer.as_slice();
        read_u32_le(&data[16..20])
    }

    /// Minutes, little-endian at offset 20.
    pub fn minute(&self) -> (r: u32)
        requires
            self@.len() >= 24,
        ensures
            r as int == le_u32(self@, 20),
    {
        let data = self.buffer.as_slice();
        read_u32_le(&data[20..24])
    }

    /// Seconds, little-endian at offset 24.
    pub fn second(&self) -> (r: u32)
        requires
            self@.len() >= 28,
        ensures
            r as int == le_u32(self@, 24),
    {
        let data = self.buffer.as_slice();
        read_u32_le(&data[24..28])
    }

    /// The year: `YEAR_OFFSET` plus the value at offset 28.
    pub fn year(&self) -> (r: u32)
        requires
            self@.len() >= 32,
            le_u32(self@, 28) + YEAR_OFFSET <= u32::MAX,
        ensures
            r as int == le_u32(self@, 28) + YEAR_OFFSET,
    {
        let data = self.buffer.as_slice();
        YEAR_OFFSET + read_u32_le(&data[28..32])
    }

    /// Month, little-endian at offset 32.
    pub fn month(&self) -> (r: u32)
        requires
            self@.len() >= 36,
        ensures
            r as int == le_u32(self@, 32),
    {
        let data = self.buffer.as_slice();
        read_u32_le(&data[32..36])
    }

    /// Day of the month, little-endian at offset 36.
    pub fn day(&self) -> (r: u32)
        requires
            self@.len() >= 40,
        ensures
            r as int == le_u32(self@, 36),
    {
        let data = self.buffer.as_slice();
        read_u32_le(&data[36..40])
    }

    /// The timestamp, where the date and time fields name one that exists.
    pub fn datetime(&self) -> (r: Option<GpsDateTime>)
        requires
            self@.len() >= 40,
        ensures
            r is Some <==> datetime_exists(self@),
            r matches Some(t) ==> datetime_of(self@, t),
    {
        let data = self.buffer.as_slice();
        let years = read_u32_le(&data[28..32]);
        if years > MAX_YEAR as u32 {
            return None;
        }
        GpsDateTime::new(
            (YEAR_OFFSET + years) as i32,
            self.month(),
            self.day(),
            self.hour(),
            self.minute(),
            self.second(),
        )
    }

    /// Whether the device had a fix: byte 40 is `'A'`.
    pub fn sat_lock(&self) -> (r: bool)
        requires
            self@.len() > 40,
        ensures
            r == sat_lock_ok(self@),
    {
        self.buffer[40] == 0x41
    }

    /// Byte 41: `'N'` or `'S'`, else `InvalidHemisphere`.
    pub fn latitude_hemisphere(&self) -> (r: Result<LatitudeHemisphere, Error>)
        requires
            self@.len() > 41,
        ensures
            self@[41] == 0x4E ==> r == Ok::<LatitudeHemisphere, Error>(LatitudeHemisphere::North),
            self@[41] == 0x53 ==> r == Ok::<LatitudeHemisphere, Error>(LatitudeHemisphere::South),
            self@[41] != 0x4E && self@[41] != 0x53 ==> r == Err::<LatitudeHemisphere, Error>(
                Error::InvalidHemisphere,
            ),
    {
        let h = self.buffer[41];
        if h == 0x4E {
            Ok(LatitudeHemisphere::North)
        } else if h == 0x53 {
            Ok(LatitudeHemisphere::South)
        } else {
            Err(Error::InvalidHemisphere)
        }
    }

    /// Byte 42: `'E'` or `'W'`, else `InvalidHemisphere`.
    pub fn longitude_hemisphere(&self) -> (r: Result<LongitudeHemisphere, Error>)
        requires
            self@.len() > 42,
        ensures
            self@[42] == 0x45 ==> r == Ok::<LongitudeHemisphere, Error>(LongitudeHemisphere::East),
            self@[42] == 0x57 ==> r == Ok::<LongitudeHemisphere, Error>(LongitudeHemisphere::West),
            self@[42] != 0x45 && self@[42] != 0x57 ==> r == Err::<LongitudeHemisphere, Error>(
                Error::InvalidHemisphere,
            ),
    {
        let h = self.buffer[42];
        if h == 0x45 {
            Ok(LongitudeHemisphere::East)
        } else if h == 0x57 {
            Ok(LongitudeHemisphere::West)
        } else {
            Err(Error::InvalidHemisphere)
        }
    }

    /// Bit pattern of the packed latitude (DDDmm.mmmm, an IEEE-754 single).
    pub fn latitude(&self) -> (r: u32)
        requires
            self@.len() >= 48,
        ensures
            r as int == le_u32(self@, 44),
    {
        let data = self.buffer.as_slice();
        read_u32_le(&data[44..48])
    }

    /// Bit pattern of the packed longitude (DDDmm.mmmm, an IEEE-754 single).
    pub fn longitude(&self) -> (r: u32)
        requires
            self@.len() >= 52,
        ensures
            r as int == le_u32(self@, 48),
    {
        let data = self.buffer.as_slice();
        read_u32_le(&data[48..52])
    }

    /// Bit pattern of the speed in knots (an IEEE-754 single).
    pub fn speed(&self) -> (r: u32)
        requires
            self@.len() >= 56,
        ensures
            r as int == le_u32(self@, 52),
    {
        let data = self.buffer.as_slice();
        read_u32_le(&data[52..56])
    }

    /// Bit pattern of the bearing in degrees (an IEEE-754 single).
    pub fn bearing(&self) -> (r: u32)
        requires
            self@.len() >= 60,
        ensures
            r as int == le_u32(self@, 56),
    {
        let data = self.buffer.as_slice();
        read_u32_le(&data[56..60])
    }
}

} // verus!

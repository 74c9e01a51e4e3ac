//! Header codec for phase-space files.
//!
//! A file starts with one header record: a 5-byte ASCII mode tag (`MODE0` or
//! `MODE2`) followed by five little-endian 32-bit fields, 25 bytes in all.
//! The header occupies one full record slot, so the file's byte length must
//! equal `(total_particles + 1) * record_length`; the record length is 28
//! bytes for `MODE0` and 32 for `MODE2` (which appends a `zlast` field to
//! every particle record).
//!
//! Energy fields are IEEE 754 single-precision values; the codec keeps them
//! as their raw bit patterns, which round-trips them exactly.

use crate::fp::{add_bits, fadd, fmax, fmin, max_bits, min_bits};
use crate::le::{read_u32_at, write_u32_at};
use vstd::bytes::*;
use vstd::prelude::*;

verus! {

/// Number of meaningful header bytes; the rest of the header's record slot is
/// unused.
pub const HEADER_LENGTH: usize = 25;

/// Record-layout variant of a file, given by its 5-byte mode tag.
#[derive(Clone, Copy, Debug, PartialEq, Eq, Structural)]
pub enum Mode {
    /// Tag `MODE0`: 28-byte particle records.
    Mode0,
    /// Tag `MODE2`: 32-byte particle records ending in a `zlast` field.
    Mode2,
}

/// Everything that can go wrong while validating or combining files.
#[derive(Clone, Copy, Debug, PartialEq, Eq, Structural)]
pub enum EGSError {
    /// The first 5 bytes are neither `MODE0` nor `MODE2`.
    BadMode,
    /// The file's byte length does not match `(total_particles + 1) * record_length`.
    BadLength,
    /// Inputs of a combine do not all share one mode.
    ModeMismatch,
    /// A combine was asked for with no input files.
    EmptyInputSet,
    /// Bytes of a partial record were left over at the end of the stream.
    TruncatedFile,
    /// The number of records streamed differs from the header's count.
    RecordCountMismatch,
}

impl Mode {
    /// Length in bytes of one record slot under this mode.
    pub open spec fn spec_record_length(self) -> int {
        match self {
            Mode::Mode0 => 28,
            Mode::Mode2 => 32,
        }
    }

    /// Length in bytes of one record slot under this mode.
    pub fn record_length(&self) -> (l: usize)
        ensures
            l == self.spec_record_length(),
    {
        match self {
            Mode::Mode0 => 28,
            Mode::Mode2 => 32,
        }
    }
}

/// One file's header. Counts are the signed 32-bit integers the format
/// stores; the three energy-like fields are kept as the bit patterns of the
/// single-precision values on disk.
#[derive(Clone, Copy, Debug, PartialEq, Eq, Structural)]
pub struct Header {
    /// Record-layout variant; determines the record length.
    pub mode: Mode,
    /// Number of particle records in the file.
    pub total_particles: i32,
    /// Number of photon records among them.
    pub total_photons: i32,
    /// Bit pattern of the maximum kinetic energy (stored before the minimum).
    pub max_energy_bits: u32,
    /// Bit pattern of the minimum kinetic energy.
    pub min_energy_bits: u32,
    /// Bit pattern of the accumulated source particle count (a float weight).
    pub total_particles_in_source_bits: u32,
}

/// The 5 tag bytes that announce a mode: ASCII `MODE0` or `MODE2`.
pub open spec fn spec_mode_tag(m: Mode) -> Seq<u8> {
    match m {
        Mode::Mode0 => seq![77u8, 79u8, 68u8, 69u8, 48u8],
        Mode::Mode2 => seq![77u8, 79u8, 68u8, 69u8, 50u8],
    }
}

/// The mode a buffer's first five bytes spell, if they spell one.
pub open spec fn spec_mode_of(s: Seq<u8>) -> Option<Mode> {
    if s.subrange(0, 5) == spec_mode_tag(Mode::Mode0) {
        Some(Mode::Mode0)
    } else if s.subrange(0, 5) == spec_mode_tag(Mode::Mode2) {
        Some(Mode::Mode2)
    } else {
        None
    }
}

/// The signed 32-bit value of four little-endian bytes.
pub open spec fn spec_i32_from_le_bytes(s: Seq<u8>) -> i32 {
    spec_u32_from_le_bytes(s) as i32
}

/// The header spelled by a buffer's first 25 bytes, assuming the mode tag is
/// one of the two known tags.
pub open spec fn spec_header_of(s: Seq<u8>) -> Header
    recommends
        s.len() >= 25,
        spec_mode_of(s) is Some,
{
    Header {
        mode: match spec_mode_of(s) {
            Some(m) => m,
            None => Mode::Mode0,
        },
        total_particles: spec_i32_from_le_bytes(s.subrange(5, 9)),
        total_photons: spec_i32_from_le_bytes(s.subrange(9, 13)),
        max_energy_bits: spec_u32_from_le_bytes(s.subrange(13, 17)),
        min_energy_bits: spec_u32_from_le_bytes(s.subrange(17, 21)),
        total_particles_in_source_bits: spec_u32_from_le_bytes(s.subrange(21, 25)),
    }
}

/// What parsing the first 25 bytes of a buffer yields: the header, or
/// `BadMode` when the tag is unknown.
pub open spec fn spec_new_from_bytes(s: Seq<u8>) -> Result<Header, EGSError>
    recommends
        s.len() >= 25,
{
    match spec_mode_of(s) {
        None => Err(EGSError::BadMode),
        Some(_) => Ok(spec_header_of(s)),
    }
}

/// The 25 bytes that serialize a header.
pub open spec fn spec_serialize(h: Header) -> Seq<u8> {
    spec_mode_tag(h.mode) + spec_u32_to_le_bytes(h.total_particles as u32) + spec_u32_to_le_bytes(
        h.total_photons as u32,
    ) + spec_u32_to_le_bytes(h.max_energy_bits) + spec_u32_to_le_bytes(h.min_energy_bits)
        + spec_u32_to_le_bytes(h.total_particles_in_source_bits)
}

/// Whether a file of `len` bytes is consistent with the header: one record
/// slot for the header itself plus one per particle.
pub open spec fn spec_valid_length(h: Header, len: int) -> bool {
    &&& h.total_particles >= 0
    &&& len == (h.total_particles + 1) * h.mode.spec_record_length()
}

/// What validating a header against a file length yields.
pub open spec fn spec_validate(h: Header, len: int) -> Result<(), EGSError> {
    if spec_valid_length(h, len) {
        Ok(())
    } else {
        Err(EGSError::BadLength)
    }
}

/// The merge of two same-mode headers: counts and the source weight are
/// summed, the energy window is widened to cover both files.
pub open spec fn spec_merge(a: Header, b: Header) -> Header
    recommends
        a.mode == b.mode,
        i32::MIN <= a.total_particles + b.total_particles <= i32::MAX,
        i32::MIN <= a.total_photons + b.total_photons <= i32::MAX,
{
    Header {
        mode: a.mode,
        total_particles: (a.total_particles + b.total_particles) as i32,
        total_photons: (a.total_photons + b.total_photons) as i32,
        max_energy_bits: max_bits(a.max_energy_bits, b.max_energy_bits),
        min_energy_bits: min_bits(a.min_energy_bits, b.min_energy_bits),
        total_particles_in_source_bits: add_bits(
            a.total_particles_in_source_bits,
            b.total_particles_in_source_bits,
        ),
    }
}

/// What merging two headers yields: their merge, or `ModeMismatch`.
pub open spec fn spec_merge_result(a: Header, b: Header) -> Result<Header, EGSError> {
    if a.mode == b.mode {
        Ok(spec_merge(a, b))
    } else {
        Err(EGSError::ModeMismatch)
    }
}

/// What parsing and validating a whole file's bytes yields. A buffer too
/// short to hold a header cannot satisfy the length invariant of any header,
/// so it is a `BadLength`; an unknown tag is `BadMode`; a length that does
/// not match the particle count is `BadLength`.
pub open spec fn spec_parse_header(s: Seq<u8>) -> Result<Header, EGSError> {
    if s.len() < 25 {
        Err(EGSError::BadLength)
    } else {
        match spec_mode_of(s) {
            None => Err(EGSError::BadMode),
            Some(_) => {
                let h = spec_header_of(s);
                if spec_valid_length(h, s.len() as int) {
                    Ok(h)
                } else {
                    Err(EGSError::BadLength)
                }
            },
        }
    }
}

impl Header {
    /// Record length in bytes of this file's records.
    pub open spec fn spec_record_length(self) -> int {
        self.mode.spec_record_length()
    }

    /// Record length in bytes of this file's records.
    pub fn record_length(&self) -> (l: usize)
        ensures
            l == self.spec_record_length(),
    {
        self.mode.record_length()
    }

    /// The byte length a file with this header must have.
    pub fn expected_bytes(&self) -> (n: u64)
        requires
            self.total_particles >= 0,
        ensures
            n == (self.total_particles + 1) * self.spec_record_length(),
    {
        let l = self.record_length();
        assert(l <= 32);
        (self.total_particles as u64 + 1) * (l as u64)
    }

    /// Parses the first 25 bytes of a buffer into a header. Fails with
    /// `BadMode` unless the tag bytes spell `MODE0` or `MODE2`.
    pub fn new_from_bytes(bytes: &Vec<u8>) -> (r: Result<Header, EGSError>)
        requires
            bytes.len() >= 25,
        ensures
            r == spec_new_from_bytes(bytes@),
    {
        let ghost s = bytes@;
        // ASCII 'M', 'O', 'D', 'E', then '0' or '2'.
        let tag_ok = bytes[0] == 77 && bytes[1] == 79 && bytes[2] == 68 && bytes[3] == 69;
        let mode = if tag_ok && bytes[4] == 48 {
            proof {
                assert(s.subrange(0, 5) =~= spec_mode_tag(Mode::Mode0));
            }
            Mode::Mode0
        } else if tag_ok && bytes[4] == 50 {
            proof {
                assert(s.subrange(0, 5) =~= spec_mode_tag(Mode::Mode2));
            }
            Mode::Mode2
        } else {
            proof {
                assert(s.subrange(0, 5)[0] == s[0]);
                assert(s.subrange(0, 5)[1] == s[1]);
                assert(s.subrange(0, 5)[2] == s[2]);
                assert(s.subrange(0, 5)[3] == s[3]);
                assert(s.subrange(0, 5)[4] == s[4]);
            }
            return Err(EGSError::BadMode);
        };
        Ok(
            Header {
                mode,
                total_particles: read_u32_at(bytes, 5) as i32,
                total_photons: read_u32_at(bytes, 9) as i32,
                max_energy_bits: read_u32_at(bytes, 13),
                min_energy_bits: read_u32_at(bytes, 17),
                total_particles_in_source_bits: read_u32_at(bytes, 21),
            },
        )
    }

    /// Serializes the header into the first 25 bytes of `buffer`, leaving the
    /// rest untouched.
    pub fn write_to_bytes(&self, buffer: &mut Vec<u8>)
        requires
            old(buffer).len() >= 25,
        ensures
            final(buffer)@ == spec_serialize(*self) + old(buffer)@.skip(25),
            final(buffer)@.len() == old(buffer)@.len(),
    {
        // ASCII 'M', 'O', 'D', 'E', then '0' or '2'.
        buffer[0] = 77;
        buffer[1] = 79;
        buffer[2] = 68;
        buffer[3] = 69;
        buffer[4] = match self.mode {
            Mode::Mode0 => 48,
            Mode::Mode2 => 50,
        };
        write_u32_at(buffer, 5, self.total_particles as u32);
        write_u32_at(buffer, 9, self.total_photons as u32);
        write_u32_at(buffer, 13, self.max_energy_bits);
        write_u32_at(buffer, 17, self.min_energy_bits);
        write_u32_at(buffer, 21, self.total_particles_in_source_bits);
        proof {
            assert(buffer@ =~= spec_serialize(*self) + old(buffer)@.skip(25));
        }
    }

    /// Checks the file-length invariant: `file_byte_length` must equal
    /// `(total_particles + 1) * record_length`.
    pub fn validate(&self, file_byte_length: u64) -> (r: Result<(), EGSError>)
        ensures
            r == spec_validate(*self, file_byte_length as int),
    {
        if self.total_particles < 0 {
            return Err(EGSError::BadLength);
        }
        if file_byte_length != self.expected_bytes() {
            return Err(EGSError::BadLength);
        }
        Ok(())
    }

    /// Merges another same-mode header into this one: particle, photon and
    /// source counts are summed; the energy window is widened by taking the
    /// minimum of the minima and the maximum of the maxima.
    pub fn merge(&self, other: &Header) -> (r: Result<Header, EGSError>)
        requires
            self.mode == other.mode ==> {
                &&& i32::MIN <= self.total_particles + other.total_particles <= i32::MAX
                &&& i32::MIN <= self.total_photons + other.total_photons <= i32::MAX
            },
        ensures
            r == spec_merge_result(*self, *other),
    {
        if self.mode != other.mode {
            return Err(EGSError::ModeMismatch);
        }
        Ok(
            Header {
                mode: self.mode,
                total_particles: self.total_particles + other.total_particles,
                total_photons: self.total_photons + other.total_photons,
                max_energy_bits: fmax(self.max_energy_bits, other.max_energy_bits),
                min_energy_bits: fmin(self.min_energy_bits, other.min_energy_bits),
                total_particles_in_source_bits: fadd(
                    self.total_particles_in_source_bits,
                    other.total_particles_in_source_bits,
                ),
            },
        )
    }
}

/// Parses and validates a whole file held in memory: the header's 25 bytes
/// plus the length invariant over the entire buffer.
pub fn parse_header(file: &Vec<u8>) -> (r: Result<Header, EGSError>)
    ensures
        r == spec_parse_header(file@),
{
    if file.len() < HEADER_LENGTH {
        return Err(EGSError::BadLength);
    }
    let h = match Header::new_from_bytes(file) {
        Ok(h) => h,
        Err(e) => {
            return Err(e);
        },
    };
    match h.validate(file.len() as u64) {
        Ok(()) => Ok(h),
        Err(e) => Err(e),
    }
}

/// Validation accepts exactly the invariant length: a file of
/// `(total_particles + 1) * record_length` bytes passes, and one byte less
/// already fails with `BadLength`.
pub proof fn lemma_validation_boundary(h: Header)
    requires
        h.total_particles >= 0,
    ensures
        spec_validate(h, (h.total_particles + 1) * h.spec_record_length()) == Ok::<(), EGSError>(
            (),
        ),
        spec_validate(h, (h.total_particles + 1) * h.spec_record_length() - 1) == Err::<
            (),
            EGSError,
        >(EGSError::BadLength),
{
}

/// A signed 32-bit value survives the round trip through its unsigned bit
/// pattern.
proof fn lemma_i32_bits_roundtrip(x: i32)
    ensures
        ((x as u32) as i32) == x,
{
    assert(((x as u32) as i32) == x) by (bit_vector);
}

/// Serializing any header and parsing the result yields the header back:
/// every field of the fixed 25-byte layout is recovered exactly, energies
/// included, since they travel as raw bit patterns.
pub proof fn lemma_header_roundtrip(h: Header)
    ensures
        spec_serialize(h).len() == 25,
        spec_new_from_bytes(spec_serialize(h)) == Ok::<Header, EGSError>(h),
{
    lemma_auto_spec_u32_to_from_le_bytes();
    let s = spec_serialize(h);
    assert(s.subrange(0, 5) =~= spec_mode_tag(h.mode));
    assert(spec_mode_tag(Mode::Mode0)[4] == 48 && spec_mode_tag(Mode::Mode2)[4] == 50);
    assert(spec_mode_of(s) == Some(h.mode));
    assert(s.subrange(5, 9) =~= spec_u32_to_le_bytes(h.total_particles as u32));
    assert(s.subrange(9, 13) =~= spec_u32_to_le_bytes(h.total_photons as u32));
    assert(s.subrange(13, 17) =~= spec_u32_to_le_bytes(h.max_energy_bits));
    assert(s.subrange(17, 21) =~= spec_u32_to_le_bytes(h.min_energy_bits));
    assert(s.subrange(21, 25) =~= spec_u32_to_le_bytes(h.total_particles_in_source_bits));
    lemma_i32_bits_roundtrip(h.total_particles);
    lemma_i32_bits_roundtrip(h.total_photons);
    assert(spec_header_of(s) == h);
}

} // verus!

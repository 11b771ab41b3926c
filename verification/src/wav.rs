//! A verified codec for the WAV streams the spectrogram displays: parsing a
//! byte stream into headers and per-channel sample sequences, and serializing
//! them back byte for byte.

use crate::sample::{spec_i16_from_le_bytes, spec_i16_to_le_bytes, i16_from_le_bytes, i16_to_le_bytes};
use vstd::bytes::{
    spec_u16_from_le_bytes, spec_u16_to_le_bytes, spec_u32_from_le_bytes, spec_u32_to_le_bytes,
};
use vstd::bytes::{u16_from_le_bytes, u32_from_le_bytes, u16_to_le_bytes, u32_to_le_bytes};
use vstd::arithmetic::div_mod::{
    lemma_div_is_ordered, lemma_div_multiples_vanish, lemma_div_nonincreasing,
    lemma_fundamental_div_mod, lemma_fundamental_div_mod_converse,
    lemma_mod_division_less_than_divisor, lemma_mod_multiples_basic, lemma_multiply_divide_lt,
};
use vstd::bytes::{lemma_auto_spec_u16_to_from_le_bytes, lemma_auto_spec_u32_to_from_le_bytes};
use vstd::arithmetic::mul::{
    lemma_mul_inequality, lemma_mul_is_commutative, lemma_mul_nonnegative,
    lemma_mul_strict_inequality,
};
use vstd::prelude::*;
use vstd::slice::slice_subrange;
use vstd::utf8::{
    decode_utf8, decode_utf8_encode_utf8, encode_utf8, encode_utf8_decode_utf8,
    encode_utf8_valid_utf8, valid_utf8,
};

verus! {

broadcast use vstd::slice::axiom_spec_len;

/// Why a WAV stream was rejected.
#[derive(Clone, Copy, Debug, PartialEq, Eq, Structural)]
pub enum WavError {
    /// Fewer bytes than the three fixed headers occupy.
    TruncatedHeader,
    /// A four-byte tag is not valid UTF-8.
    InvalidTagEncoding,
    /// The RIFF header announces a file above the supported maximum.
    FileTooLarge { file_size: u32 },
    /// Only 16-bit samples are supported.
    UnsupportedBitsPerSample { bits_per_sample: u16 },
    /// A channel count, sample rate or byte rate of zero.
    MissingFormatInfo,
    /// Streams with a sampler chunk are not supported.
    SamplerChunk,
    /// Streams with a LIST chunk are not supported.
    ListChunk,
    /// A lone trailing byte that is not a whole sample.
    TruncatedSample,
    /// The sample data does not hold as many samples as the data header says.
    SampleCountMismatch { expected: u32, found: usize },
}

/// Relies on str::from_utf8: it succeeds exactly on valid UTF-8 input and
/// returns a view of the given bytes themselves, so the returned characters
/// are their decoding.
#[verifier::external_body]
fn utf8_to_string(bytes: &[u8]) -> (r: Option<String>)
    ensures
        r is Some <==> valid_utf8(bytes@),
        r matches Some(s) ==> s@ == decode_utf8(bytes@),
{
    match core::str::from_utf8(bytes) {
        Ok(s) => Some(s.to_string()),
        Err(_) => None,
    }
}

/// The RIFF chunk descriptor: the first twelve bytes of a WAV stream.
#[derive(Debug)]
pub struct RIFFHeader {
    pub riff: String,
    pub file_size: u32,
    pub four_cc: String,
}

impl RIFFHeader {
    /// Both tags encode back to four bytes.
    pub open spec fn wf(self) -> bool {
        &&& encode_utf8(self.riff@).len() == 4
        &&& encode_utf8(self.four_cc@).len() == 4
    }

    /// The twelve bytes the header stands for.
    pub open spec fn serialized(self) -> Seq<u8> {
        encode_utf8(self.riff@) + spec_u32_to_le_bytes(self.file_size) + encode_utf8(
            self.four_cc@,
        )
    }

    /// The twelve header bytes parse into a header.
    pub open spec fn parses(b: Seq<u8>) -> bool
        recommends
            b.len() == 12,
    {
        &&& valid_utf8(b.subrange(0, 4))
        &&& valid_utf8(b.subrange(8, 12))
        &&& spec_u32_from_le_bytes(b.subrange(4, 8)) <= 1_000_000
    }

    /// The header holds exactly what the twelve bytes say.
    pub open spec fn parsed_from(self, b: Seq<u8>) -> bool
        recommends
            b.len() == 12,
    {
        &&& self.riff@ == decode_utf8(b.subrange(0, 4))
        &&& self.file_size == spec_u32_from_le_bytes(b.subrange(4, 8))
        &&& self.four_cc@ == decode_utf8(b.subrange(8, 12))
    }

    /// The error that twelve non-parsing header bytes are rejected with.
    pub open spec fn parse_error(b: Seq<u8>) -> WavError
        recommends
            b.len() == 12,
            !Self::parses(b),
    {
        if !valid_utf8(b.subrange(0, 4)) || !valid_utf8(b.subrange(8, 12)) {
            WavError::InvalidTagEncoding
        } else {
            WavError::FileTooLarge { file_size: spec_u32_from_le_bytes(b.subrange(4, 8)) }
        }
    }

    /// Parses the RIFF chunk descriptor from its twelve bytes.
    pub fn new(bytes: &[u8]) -> (r: Result<RIFFHeader, WavError>)
        requires
            bytes@.len() == 12,
        ensures
            r is Ok <==> Self::parses(bytes@),
            r matches Ok(h) ==> h.parsed_from(bytes@) && h.wf(),
            r matches Err(e) ==> e == Self::parse_error(bytes@),
    {
        let riff = match utf8_to_string(slice_subrange(bytes, 0, 4)) {
            Some(s) => s,
            None => {
                return Err(WavError::InvalidTagEncoding);
            },
        };
        let file_size = u32_from_le_bytes(slice_subrange(bytes, 4, 8));
        let four_cc = match utf8_to_string(slice_subrange(bytes, 8, 12)) {
            Some(s) => s,
            None => {
                return Err(WavError::InvalidTagEncoding);
            },
        };
        if file_size > 1_000_000 {
            Err(WavError::FileTooLarge { file_size })
        } else {
            let h = RIFFHeader { riff, file_size, four_cc };
            proof {
                decode_utf8_encode_utf8(bytes@.subrange(0, 4));
                decode_utf8_encode_utf8(bytes@.subrange(8, 12));
            }
            Ok(h)
        }
    }

    /// Appends the header's twelve bytes to a byte stream.
    pub fn write(&self, out: &mut Vec<u8>)
        ensures
            final(out)@ == old(out)@ + self.serialized(),
    {
        let riff_bytes = self.riff.as_str().as_bytes();
        out.extend_from_slice(riff_bytes);
        let mut size_bytes = u32_to_le_bytes(self.file_size);
        out.append(&mut size_bytes);
        let cc_bytes = self.four_cc.as_str().as_bytes();
        out.extend_from_slice(cc_bytes);
        proof {
            assert(out@ =~= old(out)@ + self.serialized());
        }
    }
}

/// The format header: the twenty-four bytes after the RIFF chunk descriptor.
#[derive(Debug)]
pub struct FMTHeader {
    pub fmt: String,
    pub header_size: u32,
    pub format: u16,
    pub nchannels: u16,
    pub sample_rate: u32,
    pub byte_rate: u32,
    pub block_align: u16,
    pub bits_per_sample: u16,
}

impl FMTHeader {
    /// The tag encodes back to four bytes and the fields a parse checks are
    /// in range.
    pub open spec fn wf(self) -> bool {
        &&& encode_utf8(self.fmt@).len() == 4
        &&& self.nchannels >= 1
    }

    /// The twenty-four bytes the header stands for.
    pub open spec fn serialized(self) -> Seq<u8> {
        encode_utf8(self.fmt@) + spec_u32_to_le_bytes(self.header_size) + spec_u16_to_le_bytes(
            self.format,
        ) + spec_u16_to_le_bytes(self.nchannels) + spec_u32_to_le_bytes(self.sample_rate)
            + spec_u32_to_le_bytes(self.byte_rate) + spec_u16_to_le_bytes(self.block_align)
            + spec_u16_to_le_bytes(self.bits_per_sample)
    }

    /// The twenty-four header bytes parse into a header.
    pub open spec fn parses(b: Seq<u8>) -> bool
        recommends
            b.len() == 24,
    {
        &&& valid_utf8(b.subrange(0, 4))
        &&& spec_u16_from_le_bytes(b.subrange(22, 24)) == 16
        &&& spec_u16_from_le_bytes(b.subrange(10, 12)) != 0
        &&& spec_u32_from_le_bytes(b.subrange(12, 16)) != 0
        &&& spec_u32_from_le_bytes(b.subrange(16, 20)) != 0
    }

    /// The header holds exactly what the twenty-four bytes say.
    pub open spec fn parsed_from(self, b: Seq<u8>) -> bool
        recommends
            b.len() == 24,
    {
        &&& self.fmt@ == decode_utf8(b.subrange(0, 4))
        &&& self.header_size == spec_u32_from_le_bytes(b.subrange(4, 8))
        &&& self.format == spec_u16_from_le_bytes(b.subrange(8, 10))
        &&& self.nchannels == spec_u16_from_le_bytes(b.subrange(10, 12))
        &&& self.sample_rate == spec_u32_from_le_bytes(b.subrange(12, 16))
        &&& self.byte_rate == spec_u32_from_le_bytes(b.subrange(16, 20))
        &&& self.block_align == spec_u16_from_le_bytes(b.subrange(20, 22))
        &&& self.bits_per_sample == spec_u16_from_le_bytes(b.subrange(22, 24))
    }

    /// The error that twenty-four non-parsing header bytes are rejected with.
    pub open spec fn parse_error(b: Seq<u8>) -> WavError
        recommends
            b.len() == 24,
            !Self::parses(b),
    {
        if !valid_utf8(b.subrange(0, 4)) {
            WavError::InvalidTagEncoding
        } else if spec_u16_from_le_bytes(b.subrange(22, 24)) != 16 {
            WavError::UnsupportedBitsPerSample {
                bits_per_sample: spec_u16_from_le_bytes(b.subrange(22, 24)),
            }
        } else {
            WavError::MissingFormatInfo
        }
    }

    /// Parses the format header from its twenty-four bytes.
    pub fn new(bytes: &[u8]) -> (r: Result<FMTHeader, WavError>)
        requires
            bytes@.len() == 24,
        ensures
            r is Ok <==> Self::parses(bytes@),
            r matches Ok(h) ==> h.parsed_from(bytes@) && h.wf(),
            r matches Err(e) ==> e == Self::parse_error(bytes@),
    {
        let fmt = match utf8_to_string(slice_subrange(bytes, 0, 4)) {
            Some(s) => s,
            None => {
                return Err(WavError::InvalidTagEncoding);
            },
        };
        let header_size = u32_from_le_bytes(slice_subrange(bytes, 4, 8));
        let format = u16_from_le_bytes(slice_subrange(bytes, 8, 10));
        let nchannels = u16_from_le_bytes(slice_subrange(bytes, 10, 12));
        let sample_rate = u32_from_le_bytes(slice_subrange(bytes, 12, 16));
        let byte_rate = u32_from_le_bytes(slice_subrange(bytes, 16, 20));
        let block_align = u16_from_le_bytes(slice_subrange(bytes, 20, 22));
        let bits_per_sample = u16_from_le_bytes(slice_subrange(bytes, 22, 24));
        if bits_per_sample != 16 {
            Err(WavError::UnsupportedBitsPerSample { bits_per_sample })
        } else if nchannels == 0 || sample_rate == 0 || byte_rate == 0 {
            Err(WavError::MissingFormatInfo)
        } else {
            let h = FMTHeader {
                fmt,
                header_size,
                format,
                nchannels,
                sample_rate,
                byte_rate,
                block_align,
                bits_per_sample,
            };
            proof {
                decode_utf8_encode_utf8(bytes@.subrange(0, 4));
            }
            Ok(h)
        }
    }

    /// Appends the header's twenty-four bytes to a byte stream.
    pub fn write(&self, out: &mut Vec<u8>)
        ensures
            final(out)@ == old(out)@ + self.serialized(),
    {
        let fmt_bytes = self.fmt.as_str().as_bytes();
        out.extend_from_slice(fmt_bytes);
        let mut b = u32_to_le_bytes(self.header_size);
        out.append(&mut b);
        let mut b = u16_to_le_bytes(self.format);
        out.append(&mut b);
        let mut b = u16_to_le_bytes(self.nchannels);
        out.append(&mut b);
        let mut b = u32_to_le_bytes(self.sample_rate);
        out.append(&mut b);
        let mut b = u32_to_le_bytes(self.byte_rate);
        out.append(&mut b);
        let mut b = u16_to_le_bytes(self.block_align);
        out.append(&mut b);
        let mut b = u16_to_le_bytes(self.bits_per_sample);
        out.append(&mut b);
        proof {
            assert(out@ =~= old(out)@ + self.serialized());
        }
    }
}

/// The data header: the eight bytes before the raw sample data.
#[derive(Debug)]
pub struct DataHeader {
    pub data: String,
    pub size: u32,
}

impl DataHeader {
    /// The tag encodes back to four bytes.
    pub open spec fn wf(self) -> bool {
        encode_utf8(self.data@).len() == 4
    }

    /// The eight bytes the header stands for.
    pub open spec fn serialized(self) -> Seq<u8> {
        encode_utf8(self.data@) + spec_u32_to_le_bytes(self.size)
    }

    /// The eight header bytes parse into a header.
    pub open spec fn parses(b: Seq<u8>) -> bool
        recommends
            b.len() == 8,
    {
        &&& valid_utf8(b.subrange(0, 4))
        &&& decode_utf8(b.subrange(0, 4)) != "smpl"@
        &&& decode_utf8(b.subrange(0, 4)) != "LIST"@
    }

    /// The header holds exactly what the eight bytes say.
    pub open spec fn parsed_from(self, b: Seq<u8>) -> bool
        recommends
            b.len() == 8,
    {
        &&& self.data@ == decode_utf8(b.subrange(0, 4))
        &&& self.size == spec_u32_from_le_bytes(b.subrange(4, 8))
    }

    /// The error that eight non-parsing header bytes are rejected with.
    pub open spec fn parse_error(b: Seq<u8>) -> WavError
        recommends
            b.len() == 8,
            !Self::parses(b),
    {
        if !valid_utf8(b.subrange(0, 4)) {
            WavError::InvalidTagEncoding
        } else if decode_utf8(b.subrange(0, 4)) == "smpl"@ {
            WavError::SamplerChunk
        } else {
            WavError::ListChunk
        }
    }

    /// Parses the data header from its eight bytes.
    pub fn new(bytes: &[u8]) -> (r: Result<DataHeader, WavError>)
        requires
            bytes@.len() == 8,
        ensures
            r is Ok <==> Self::parses(bytes@),
            r matches Ok(h) ==> h.parsed_from(bytes@) && h.wf(),
            r matches Err(e) ==> e == Self::parse_error(bytes@),
    {
        let data = match utf8_to_string(slice_subrange(bytes, 0, 4)) {
            Some(s) => s,
            None => {
                return Err(WavError::InvalidTagEncoding);
            },
        };
        let sampler_tag: String = "smpl".to_owned();
        let list_tag: String = "LIST".to_owned();
        if data == sampler_tag {
            return Err(WavError::SamplerChunk);
        }
        if data == list_tag {
            return Err(WavError::ListChunk);
        }
        let size = u32_from_le_bytes(slice_subrange(bytes, 4, 8));
        let h = DataHeader { data, size };
        proof {
            decode_utf8_encode_utf8(bytes@.subrange(0, 4));
        }
        Ok(h)
    }

    /// Appends the header's eight bytes to a byte stream.
    pub fn write(&self, out: &mut Vec<u8>)
        ensures
            final(out)@ == old(out)@ + self.serialized(),
    {
        let data_bytes = self.data.as_str().as_bytes();
        out.extend_from_slice(data_bytes);
        let mut b = u32_to_le_bytes(self.size);
        out.append(&mut b);
        proof {
            assert(out@ =~= old(out)@ + self.serialized());
        }
    }
}

/// A parsed WAV stream: the three fixed headers and one sample sequence per
/// channel, in channel order.
pub struct WAV {
    pub riff_header: RIFFHeader,
    pub fmt_header: FMTHeader,
    pub data_header: DataHeader,
    pub channels: Vec<Vec<i16>>,
}

/// The number of whole samples among the bytes after the three headers of a
/// stream of `len` bytes.
pub open spec fn chunk_count(len: int) -> int {
    (len - 44) / 2
}

/// How many of `n` interleaved samples land in channel `c` when they are
/// dealt round-robin over `nch` channels: sample `i` goes to channel
/// `i % nch`.
pub open spec fn chunks_in_channel(n: int, nch: int, c: int) -> int {
    if c < n {
        (n - c - 1) / nch + 1
    } else {
        0
    }
}

/// Channel `c` holds the samples whose interleaved index is `j * nch + c`, so
/// it receives sample `j` exactly when that index is among the `n` samples.
pub proof fn lemma_chunks_in_channel(n: int, nch: int, c: int, j: int)
    requires
        nch >= 1,
        0 <= c,
        0 <= j,
    ensures
        j < chunks_in_channel(n, nch, c) <==> j * nch + c < n,
{
    lemma_mul_nonnegative(j, nch);
    if c < n {
        let m = n - c - 1;
        if j * nch <= m {
            lemma_div_is_ordered(j * nch, m, nch);
            lemma_mul_is_commutative(j, nch);
            lemma_div_multiples_vanish(j, nch);
        }
        if j <= m / nch {
            lemma_mul_inequality(j, m / nch, nch);
            lemma_fundamental_div_mod(m, nch);
            lemma_mod_division_less_than_divisor(m, nch);
            lemma_mul_is_commutative(m / nch, nch);
        }
    }
}

impl WAV {
    /// The channel layout is consistent: as many channels as the format
    /// header says, all of the same length.
    pub open spec fn wf(self) -> bool {
        &&& self.fmt_header.nchannels >= 1
        &&& self.channels@.len() == self.fmt_header.nchannels
        &&& forall|c: int|
            0 <= c < self.channels@.len() ==> (#[trigger] self.channels@[c])@.len()
                == self.channels@[0]@.len()
    }

    /// The little-endian bytes of all samples, interleaved frame by frame:
    /// byte `i` belongs to the sample of frame `(i / 2) / nch` in channel
    /// `(i / 2) % nch`.
    pub open spec fn sample_bytes(self) -> Seq<u8>
        recommends
            self.wf(),
    {
        let nch = self.channels@.len() as int;
        Seq::new(
            self.channels@[0]@.len() * self.channels@.len() * 2,
            |i: int|
                spec_i16_to_le_bytes(self.channels@[(i / 2) % nch]@[(i / 2) / nch])[i % 2],
        )
    }

    /// The byte stream the WAV stands for.
    pub open spec fn serialized(self) -> Seq<u8>
        recommends
            self.wf(),
    {
        self.riff_header.serialized() + self.fmt_header.serialized()
            + self.data_header.serialized() + self.sample_bytes()
    }

    /// The channel count announced by the format header bytes.
    pub open spec fn spec_nchannels(b: Seq<u8>) -> u16 {
        spec_u16_from_le_bytes(b.subrange(22, 24))
    }

    /// The per-channel sample count announced by the data header.
    pub open spec fn expected_samples(b: Seq<u8>) -> u32 {
        (spec_u32_from_le_bytes(b.subrange(40, 44)) as int / (Self::spec_nchannels(b) as int
            * 2)) as u32
    }

    /// The whole stream parses: the headers parse, the sample data holds
    /// whole samples only, and channel 0 receives as many of them as the
    /// headers announce.
    pub open spec fn parses(b: Seq<u8>) -> bool {
        &&& b.len() >= 44
        &&& RIFFHeader::parses(b.subrange(0, 12))
        &&& FMTHeader::parses(b.subrange(12, 36))
        &&& DataHeader::parses(b.subrange(36, 44))
        &&& (b.len() - 44) % 2 == 0
        &&& chunks_in_channel(chunk_count(b.len() as int), Self::spec_nchannels(b) as int, 0)
            == Self::expected_samples(b)
    }

    /// The parsed WAV holds exactly what the bytes say: each header its
    /// bytes, and channel `c` the samples at interleaved positions
    /// `j * nch + c`.
    pub open spec fn parsed_from(self, b: Seq<u8>) -> bool {
        let nch = self.channels@.len() as int;
        &&& self.riff_header.parsed_from(b.subrange(0, 12))
        &&& self.fmt_header.parsed_from(b.subrange(12, 36))
        &&& self.data_header.parsed_from(b.subrange(36, 44))
        &&& self.channels@.len() == Self::spec_nchannels(b)
        &&& forall|c: int|
            0 <= c < nch ==> (#[trigger] self.channels@[c])@.len() == chunks_in_channel(
                chunk_count(b.len() as int),
                nch,
                c,
            )
        &&& forall|c: int, j: int|
            0 <= c < nch && 0 <= j < self.channels@[c]@.len()
                ==> (#[trigger] self.channels@[c]@[j]) == spec_i16_from_le_bytes(
                b.subrange(44 + 2 * (j * nch + c), 46 + 2 * (j * nch + c)),
            )
    }

    /// The error that a non-parsing stream is rejected with.
    pub open spec fn parse_error(b: Seq<u8>) -> WavError
        recommends
            !Self::parses(b),
    {
        if b.len() < 44 {
            WavError::TruncatedHeader
        } else if !RIFFHeader::parses(b.subrange(0, 12)) {
            RIFFHeader::parse_error(b.subrange(0, 12))
        } else if !FMTHeader::parses(b.subrange(12, 36)) {
            FMTHeader::parse_error(b.subrange(12, 36))
        } else if !DataHeader::parses(b.subrange(36, 44)) {
            DataHeader::parse_error(b.subrange(36, 44))
        } else if (b.len() - 44) % 2 != 0 {
            WavError::TruncatedSample
        } else {
            WavError::SampleCountMismatch {
                expected: Self::expected_samples(b),
                found: chunks_in_channel(
                    chunk_count(b.len() as int),
                    Self::spec_nchannels(b) as int,
                    0,
                ) as usize,
            }
        }
    }

    /// Parses a whole WAV stream: the three headers, then every remaining
    /// byte pair as one sample, dealt round-robin over the channels.
    pub fn from(bytes: &[u8]) -> (r: Result<WAV, WavError>)
        ensures
            r is Ok <==> Self::parses(bytes@),
            r matches Ok(w) ==> w.parsed_from(bytes@),
            r matches Err(e) ==> e == Self::parse_error(bytes@),
    {
        let n = bytes.len();
        if n < 44 {
            return Err(WavError::TruncatedHeader);
        }
        let riff_header = match RIFFHeader::new(slice_subrange(bytes, 0, 12)) {
            Ok(h) => h,
            Err(e) => {
                return Err(e);
            },
        };
        let fmt_header = match FMTHeader::new(slice_subrange(bytes, 12, 36)) {
            Ok(h) => h,
            Err(e) => {
                return Err(e);
            },
        };
        let data_header = match DataHeader::new(slice_subrange(bytes, 36, 44)) {
            Ok(h) => h,
            Err(e) => {
                return Err(e);
            },
        };
        if (n - 44) % 2 != 0 {
            return Err(WavError::TruncatedSample);
        }
        let m: usize = (n - 44) / 2;
        let nch: usize = fmt_header.nchannels as usize;
        proof {
            assert(bytes@.subrange(12, 36).subrange(10, 12) =~= bytes@.subrange(22, 24));
            assert(bytes@.subrange(36, 44).subrange(4, 8) =~= bytes@.subrange(40, 44));
            assert(2 * m == n - 44) by {
                lemma_fundamental_div_mod(n as int - 44, 2);
            }
        }
        let mut channels: Vec<Vec<i16>> = Vec::new();
        for c in 0..nch
            invariant
                nch == Self::spec_nchannels(bytes@),
                1 <= nch,
                n == bytes@.len(),
                44 <= n,
                m == chunk_count(n as int),
                2 * m == n - 44,
                channels@.len() == c,
                forall|ci: int|
                    0 <= ci < c ==> (#[trigger] channels@[ci])@.len() == chunks_in_channel(
                        m as int,
                        nch as int,
                        ci,
                    ),
                forall|ci: int, j: int|
                    0 <= ci < c && 0 <= j < channels@[ci]@.len()
                        ==> (#[trigger] channels@[ci]@[j]) == spec_i16_from_le_bytes(
                        bytes@.subrange(44 + 2 * (j * nch + ci), 46 + 2 * (j * nch + ci)),
                    ),
        {
            let count: usize = if c < m {
                proof {
                    lemma_div_nonincreasing(m as int - c - 1, nch as int);
                }
                (m - c - 1) / nch + 1
            } else {
                0
            };
            let mut cur: Vec<i16> = Vec::new();
            for j in 0..count
                invariant
                    nch == Self::spec_nchannels(bytes@),
                    1 <= nch,
                    c < nch,
                    n == bytes@.len(),
                    44 <= n,
                    m == chunk_count(n as int),
                    2 * m == n - 44,
                    count == chunks_in_channel(m as int, nch as int, c as int),
                    cur@.len() == j,
                    forall|ji: int|
                        0 <= ji < j ==> (#[trigger] cur@[ji]) == spec_i16_from_le_bytes(
                            bytes@.subrange(44 + 2 * (ji * nch + c), 46 + 2 * (ji * nch + c)),
                        ),
            {
                proof {
                    lemma_chunks_in_channel(m as int, nch as int, c as int, j as int);
                }
                let pos: usize = 44 + 2 * (j * nch + c);
                let sample = i16_from_le_bytes(slice_subrange(bytes, pos, pos + 2));
                cur.push(sample);
            }
            channels.push(cur);
        }
        let expected: u32 = data_header.size / (fmt_header.nchannels as u32 * 2);
        let found: usize = channels[0].len();
        if found as u64 != expected as u64 {
            return Err(WavError::SampleCountMismatch { expected, found });
        }
        Ok(WAV { riff_header, fmt_header, data_header, channels })
    }

    /// The field values a parse accepts, stated on the WAV itself: headers
    /// with four-byte tags within their checked ranges, and a data header
    /// that counts exactly the frames the channels hold.
    pub open spec fn valid(self) -> bool {
        &&& self.wf()
        &&& self.riff_header.wf()
        &&& self.fmt_header.wf()
        &&& self.data_header.wf()
        &&& self.riff_header.file_size <= 1_000_000
        &&& self.fmt_header.bits_per_sample == 16
        &&& self.fmt_header.sample_rate != 0
        &&& self.fmt_header.byte_rate != 0
        &&& self.data_header.data@ != "smpl"@
        &&& self.data_header.data@ != "LIST"@
        &&& self.data_header.size as int / (self.fmt_header.nchannels as int * 2)
            == self.channels@[0]@.len()
    }

    /// Whether the channel layout is consistent; exactly the streams for
    /// which this holds can be serialized back with [`WAV::write`].
    pub fn well_formed(&self) -> (r: bool)
        ensures
            r == self.wf(),
    {
        if self.fmt_header.nchannels == 0 {
            return false;
        }
        if self.channels.len() != self.fmt_header.nchannels as usize {
            return false;
        }
        let n_frames = self.channels[0].len();
        let nch = self.channels.len();
        for c in 0..nch
            invariant
                nch == self.channels@.len(),
                1 <= nch,
                n_frames == self.channels@[0]@.len(),
                forall|ci: int|
                    0 <= ci < c ==> (#[trigger] self.channels@[ci])@.len() == n_frames,
        {
            if self.channels[c].len() != n_frames {
                return false;
            }
        }
        true
    }

    /// Appends the WAV's byte stream: the three headers, then every sample,
    /// interleaved frame by frame in channel order.
    pub fn write(&self, out: &mut Vec<u8>)
        requires
            self.wf(),
        ensures
            final(out)@ == old(out)@ + self.serialized(),
    {
        self.riff_header.write(out);
        self.fmt_header.write(out);
        self.data_header.write(out);
        let ghost head = old(out)@ + self.riff_header.serialized() + self.fmt_header.serialized()
            + self.data_header.serialized();
        let nch = self.channels.len();
        let n_frames = self.channels[0].len();
        proof {
            assert(2 * (0 * nch as int) == 0);
            assert(out@ =~= head + self.sample_bytes().subrange(0, 2 * (0 * nch as int)));
        }
        for j in 0..n_frames
            invariant
                self.wf(),
                nch == self.channels@.len(),
                n_frames == self.channels@[0]@.len(),
                out@ == head + self.sample_bytes().subrange(0, 2 * (j * nch)),
        {
            proof {
                lemma_mul_nonnegative(j as int, nch as int);
                lemma_mul_inequality(j as int + 1, n_frames as int, nch as int);
                assert((j + 1) * nch == j * nch + nch) by (nonlinear_arith);
            }
            for c in 0..nch
                invariant
                    self.wf(),
                    nch == self.channels@.len(),
                    n_frames == self.channels@[0]@.len(),
                    j < n_frames,
                    j * nch + nch <= n_frames * nch,
                    out@ == head + self.sample_bytes().subrange(0, 2 * (j * nch + c)),
            {
                let ghost sb = self.sample_bytes();
                let ghost chunk = j * nch + c;
                proof {
                    lemma_mul_nonnegative(j as int, nch as int);
                    lemma_fundamental_div_mod_converse(2 * chunk, 2, chunk, 0);
                    lemma_fundamental_div_mod_converse(2 * chunk + 1, 2, chunk, 1);
                    lemma_fundamental_div_mod_converse(chunk, nch as int, j as int, c as int);
                    assert(sb.len() == n_frames * nch * 2);
                }
                let mut b = i16_to_le_bytes(self.channels[c][j]);
                out.append(&mut b);
                proof {
                    assert(sb[2 * chunk] == spec_i16_to_le_bytes(self.channels@[c as int]@[j as int])[0]);
                    assert(sb[2 * chunk + 1] == spec_i16_to_le_bytes(
                        self.channels@[c as int]@[j as int],
                    )[1]);
                    assert(sb.subrange(0, 2 * chunk + 2) =~= sb.subrange(0, 2 * chunk)
                        + seq![sb[2 * chunk], sb[2 * chunk + 1]]);
                    assert(out@ =~= head + sb.subrange(0, 2 * (j * nch + c + 1)));
                }
            }
        }
        proof {
            let sb = self.sample_bytes();
            assert(sb.subrange(0, 2 * (n_frames * nch)) =~= sb);
            assert(out@ =~= old(out)@ + self.serialized());
        }
    }
}

/// The byte stream of a valid WAV parses: writing a WAV out always yields a
/// stream that [`WAV::from`] accepts again, and by [`lemma_wav_round_trip`]
/// the WAV it then returns serializes to that same stream.
pub proof fn lemma_wav_serialized_parses(w: WAV)
    requires
        w.valid(),
    ensures
        WAV::parses(w.serialized()),
{
    lemma_auto_spec_u16_to_from_le_bytes();
    lemma_auto_spec_u32_to_from_le_bytes();
    broadcast use encode_utf8_valid_utf8;

    let s = w.serialized();
    let r = w.riff_header.serialized();
    let f = w.fmt_header.serialized();
    let d = w.data_header.serialized();
    let sb = w.sample_bytes();
    let nch = w.channels@.len() as int;
    let k = w.channels@[0]@.len() as int;
    assert(r.len() == 12);
    assert(f.len() == 24);
    assert(d.len() == 8);
    assert(sb.len() == k * nch * 2);
    assert(s.len() == 44 + k * nch * 2);

    assert(s.subrange(0, 12) =~= r);
    assert(s.subrange(12, 36) =~= f);
    assert(s.subrange(36, 44) =~= d);

    assert(r.subrange(0, 4) =~= encode_utf8(w.riff_header.riff@));
    assert(r.subrange(4, 8) =~= spec_u32_to_le_bytes(w.riff_header.file_size));
    assert(r.subrange(8, 12) =~= encode_utf8(w.riff_header.four_cc@));
    assert(RIFFHeader::parses(s.subrange(0, 12)));

    assert(f.subrange(0, 4) =~= encode_utf8(w.fmt_header.fmt@));
    assert(f.subrange(10, 12) =~= spec_u16_to_le_bytes(w.fmt_header.nchannels));
    assert(f.subrange(12, 16) =~= spec_u32_to_le_bytes(w.fmt_header.sample_rate));
    assert(f.subrange(16, 20) =~= spec_u32_to_le_bytes(w.fmt_header.byte_rate));
    assert(f.subrange(22, 24) =~= spec_u16_to_le_bytes(w.fmt_header.bits_per_sample));
    assert(FMTHeader::parses(s.subrange(12, 36)));

    assert(d.subrange(0, 4) =~= encode_utf8(w.data_header.data@));
    encode_utf8_decode_utf8(w.data_header.data@);
    assert(d.subrange(4, 8) =~= spec_u32_to_le_bytes(w.data_header.size));
    assert(DataHeader::parses(s.subrange(36, 44)));

    assert((s.len() - 44) % 2 == 0) by {
        lemma_mod_multiples_basic(k * nch, 2);
        assert(k * nch * 2 == (k * nch) * 2);
    }
    let m = chunk_count(s.len() as int);
    assert(m == k * nch) by {
        lemma_mul_is_commutative(k * nch, 2);
        lemma_div_multiples_vanish(k * nch, 2);
    }
    assert(WAV::spec_nchannels(s) == w.fmt_header.nchannels) by {
        assert(s.subrange(22, 24) =~= f.subrange(10, 12));
    }
    assert(chunks_in_channel(m, nch, 0) == k) by {
        if k > 0 {
            lemma_chunks_in_channel(m, nch, 0, k - 1);
            lemma_chunks_in_channel(m, nch, 0, k);
            lemma_mul_strict_inequality(k - 1, k, nch);
            lemma_mul_is_commutative(k - 1, nch);
            lemma_mul_is_commutative(k, nch);
        } else {
            assert(0 * nch == 0) by (nonlinear_arith);
        }
    }
    assert(WAV::expected_samples(s) == k) by {
        assert(s.subrange(40, 44) =~= d.subrange(4, 8));
    }
}

/// Reading a WAV stream and writing it out again is lossless: a well-formed
/// WAV parsed from a byte stream serializes back to those very bytes.
pub proof fn lemma_wav_round_trip(w: WAV, b: Seq<u8>)
    requires
        WAV::parses(b),
        w.parsed_from(b),
        w.wf(),
    ensures
        w.serialized() == b,
{
    lemma_auto_spec_u16_to_from_le_bytes();
    lemma_auto_spec_u32_to_from_le_bytes();
    let len = b.len() as int;
    let b_riff = b.subrange(0, 12);
    let b_fmt = b.subrange(12, 36);
    let b_data = b.subrange(36, 44);

    decode_utf8_encode_utf8(b_riff.subrange(0, 4));
    decode_utf8_encode_utf8(b_riff.subrange(8, 12));
    assert(w.riff_header.serialized() =~= b_riff);

    decode_utf8_encode_utf8(b_fmt.subrange(0, 4));
    assert(w.fmt_header.serialized() =~= b_fmt);

    decode_utf8_encode_utf8(b_data.subrange(0, 4));
    assert(w.data_header.serialized() =~= b_data);

    let nch = w.channels@.len() as int;
    let m = chunk_count(len);
    let k = w.channels@[0]@.len() as int;

    // The channels jointly hold every chunk exactly once: k * nch == m.
    assert(m >= 0);
    assert(2 * m == len - 44) by {
        lemma_fundamental_div_mod(len - 44, 2);
    }
    assert(k == chunks_in_channel(m, nch, 0));
    assert(w.channels@[nch - 1]@.len() == k);
    assert(k == chunks_in_channel(m, nch, nch - 1));
    assert(k * nch == m) by {
        if k == 0 {
            lemma_chunks_in_channel(m, nch, 0, 0);
            assert(0 * nch == 0) by (nonlinear_arith);
        } else {
            lemma_chunks_in_channel(m, nch, 0, k - 1);
            lemma_chunks_in_channel(m, nch, 0, k);
            lemma_chunks_in_channel(m, nch, nch - 1, k - 1);
            assert((k - 1) * nch + nch - 1 < m);
            assert(k * nch >= m);
            assert((k - 1) * nch + nch == k * nch) by (nonlinear_arith);
        }
    }

    let sb = w.sample_bytes();
    let tail = b.subrange(44, len);
    assert(sb.len() == k * nch * 2);
    assert(k * nch * 2 == 2 * m) by (nonlinear_arith)
        requires
            k * nch == m,
    ;
    assert forall|i: int| 0 <= i < sb.len() implies sb[i] == tail[i] by {
        let chunk = i / 2;
        let t = i % 2;
        lemma_fundamental_div_mod(i, 2);
        lemma_mod_division_less_than_divisor(i, 2);
        assert(chunk < m) by {
            lemma_multiply_divide_lt(i, 2, m);
        }
        let c = chunk % nch;
        let j = chunk / nch;
        lemma_fundamental_div_mod(chunk, nch);
        lemma_mod_division_less_than_divisor(chunk, nch);
        assert(chunk == j * nch + c) by {
            lemma_mul_is_commutative(nch, j);
        }
        assert(j < w.channels@[c]@.len()) by {
            lemma_chunks_in_channel(m, nch, c, j);
        }
        assert(w.channels@[c]@[j] == spec_i16_from_le_bytes(
            b.subrange(44 + 2 * chunk, 46 + 2 * chunk),
        ));
        let pair = b.subrange(44 + 2 * chunk, 46 + 2 * chunk);
        crate::sample::lemma_auto_spec_i16_to_from_le_bytes();
        assert(spec_i16_to_le_bytes(spec_i16_from_le_bytes(pair)) == pair);
        assert(sb[i] == pair[t]);
        assert(pair[t] == b[44 + 2 * chunk + t]);
    }
    assert(sb =~= tail);
    assert(b =~= b_riff + b_fmt + b_data + tail);
    assert(w.serialized() =~= b);
}

} // verus!

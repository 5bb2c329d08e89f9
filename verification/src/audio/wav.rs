//! Recordings as WAV files: 16 kHz, mono, 16 bits.

use vstd::prelude::*;
use vstd::string::*;
use crate::error::AppError;
use crate::error::AppResult;

verus! {

/// A number as bytes, the lowest first.
pub open spec fn little_endian(n: int, width: nat) -> Seq<u8>
    decreases width,
{
    if width == 0 {
        Seq::empty()
    } else {
        seq![(n % 256) as u8] + little_endian(n / 256, (width - 1) as nat)
    }
}

/// A sample as bytes.
pub open spec fn sample_bytes(s: i16) -> Seq<u8> {
    little_endian(
        if s < 0 {
            s + 0x1_0000
        } else {
            s as int
        },
        2,
    )
}

pub open spec fn samples_bytes(samples: Seq<i16>) -> Seq<u8>
    decreases samples.len(),
{
    if samples.len() == 0 {
        Seq::empty()
    } else {
        samples_bytes(samples.drop_last()) + sample_bytes(samples.last())
    }
}

/// Channels of a recording.
pub const CHANNELS: u16 = 1;

/// Samples of a recording in a second.
pub const SAMPLE_RATE: u32 = 16_000;

/// Bits of a sample.
pub const BITS: u16 = 16;

/// A whole file: the header with the sizes and the format, then the samples.
pub open spec fn wav_file(samples: Seq<i16>, channels: int, rate: int, bits: int) -> Seq<u8> {
    let size = 2 * samples.len() as int;
    let block = channels * 2;
    seq![0x52u8, 0x49u8, 0x46u8, 0x46u8] + little_endian(36 + size, 4) + seq![
        0x57u8,
        0x41u8,
        0x56u8,
        0x45u8,
        0x66u8,
        0x6du8,
        0x74u8,
        0x20u8,
    ] + little_endian(16, 4) + little_endian(1, 2) + little_endian(channels, 2) + little_endian(
        rate,
        4,
    ) + little_endian(rate * block, 4) + little_endian(block, 2) + little_endian(bits, 2) + seq![
        0x64u8,
        0x61u8,
        0x74u8,
        0x61u8,
    ] + little_endian(size, 4) + samples_bytes(samples)
}

/// `hound::WavWriter` for whole numbers, writing to memory: `new`, `write_sample`
/// for one sample after the other, `finalize`. The file has the classic 44-byte
/// header, whose two size fields are filled in at the end, and then each sample in
/// two bytes. With one or two channels of 16 bits, and as many samples for each,
/// nothing of this fails: memory takes every byte, and every sample fits.
#[verifier::external_body]
fn write_wav(samples: &Vec<i16>, channels: u16, sample_rate: u32, bits_per_sample: u16) -> (r:
    Result<Vec<u8>, String>)
    requires
        1 <= channels <= 2,
        1 <= sample_rate <= 0x1000_0000,
        bits_per_sample == 16,
        samples@.len() % channels as nat == 0,
        36 + 2 * samples@.len() <= u32::MAX,
    ensures
        r is Ok,
        r->Ok_0@ == wav_file(
            samples@,
            channels as int,
            sample_rate as int,
            bits_per_sample as int,
        ),
{
    let sample_format = hound::SampleFormat::Int;
    let spec = hound::WavSpec { channels, sample_rate, bits_per_sample, sample_format };
    let mut cursor = std::io::Cursor::new(Vec::new());
    let mut writer = hound::WavWriter::new(&mut cursor, spec).map_err(|e| e.to_string())?;
    for s in samples {
        writer.write_sample(*s).map_err(|e| e.to_string())?;
    }
    writer.finalize().map_err(|e| e.to_string())?;
    Ok(cursor.into_inner())
}

/// Encodes a recording for sending: mono, 16 kHz, 16 bits.
pub fn encode_wav_16k_mono(samples: &Vec<i16>) -> (r: AppResult<Vec<u8>>)
    requires
        36 + 2 * samples@.len() <= u32::MAX,
    ensures
        r matches Ok(bytes) && bytes@ == wav_file(samples@, 1, 16_000, 16),
{
    match write_wav(samples, CHANNELS, SAMPLE_RATE, BITS) {
        Ok(bytes) => Ok(bytes),
        Err(why) => {
            let mut m = "编码 WAV 失败：".to_owned();
            m.append(why.as_str());
            Err(AppError::Audio(m))
        },
    }
}

/// How long a recording of so many samples is.
pub fn recorded_ms(samples: u64) -> (r: i64)
    requires
        samples * 1000 <= i64::MAX,
    ensures
        r == samples * 1000 / 16_000,
{
    samples as i64 * 1000 / 16_000
}

/// Each sample of a recording stands in two bytes, the lower one first, in order and
/// without gaps.
pub proof fn law_samples_stand_in_order(samples: Seq<i16>, i: int)
    requires
        0 <= i < samples.len(),
    ensures
        samples_bytes(samples).len() == 2 * samples.len(),
        ({
            let b = samples_bytes(samples);
            let n = b[2 * i] + 256 * b[2 * i + 1];
            samples[i] == if n >= 0x8000 {
                n - 0x1_0000
            } else {
                n
            }
        }),
    decreases samples.len(),
{
    let head = samples.drop_last();
    let n = if samples.last() < 0 {
        samples.last() + 0x1_0000
    } else {
        samples.last() as int
    };
    reveal_with_fuel(little_endian, 3);
    let last = sample_bytes(samples.last());
    assert(last =~= seq![(n % 256) as u8, (n / 256 % 256) as u8]);
    if head.len() > 0 {
        law_samples_stand_in_order(
            head,
            if i < head.len() {
                i
            } else {
                0
            },
        );
    } else {
        assert(samples_bytes(head) =~= Seq::empty());
    }
    assert(samples_bytes(samples) == samples_bytes(head) + last);
    if i < head.len() {
        assert(head[i] == samples[i]);
    } else {
        assert(n / 256 % 256 == n / 256);
        assert(n == n % 256 + 256 * (n / 256));
    }
}

/// A file says what it is, how many channels it has, how fast they are sampled and how
/// long it is; the samples follow.
pub proof fn law_files_say_what_they_hold(samples: Seq<i16>)
    requires
        36 + 2 * samples.len() <= u32::MAX,
    ensures
        ({
            let b = wav_file(samples, 1, 16_000, 16);
            &&& b.len() == 44 + samples_bytes(samples).len()
            &&& b.skip(44) == samples_bytes(samples)
            &&& b[0] == 0x52 && b[1] == 0x49 && b[2] == 0x46 && b[3] == 0x46
            &&& b[20] == 1 && b[21] == 0
            &&& b[22] == 1 && b[23] == 0
            &&& b[24] + 256 * b[25] + 65_536 * b[26] + 16_777_216 * b[27] == 16_000
            &&& b[34] == 16 && b[35] == 0
        }),
{
    let size = 2 * samples.len() as int;
    reveal_with_fuel(little_endian, 5);
    assert(16_000int / 256 == 62 && 16_000int % 256 == 128 && 62int / 256 == 0 && 62int % 256 == 62);
    let b = wav_file(samples, 1, 16_000, 16);
    assert(b.skip(44) =~= samples_bytes(samples));
}

/// What [`encode_wav_16k_mono`] writes: all samples, in order.
pub proof fn law_uploads_hold_all_samples(samples: &Vec<i16>, r: AppResult<Vec<u8>>, i: int)
    requires
        call_ensures(encode_wav_16k_mono, (samples,), r),
        36 + 2 * samples@.len() <= u32::MAX,
        0 <= i < samples@.len(),
    ensures
        r is Ok,
        ({
            let b = r->Ok_0@;
            let n = b[44 + 2 * i] + 256 * b[45 + 2 * i];
            &&& b.len() == 44 + 2 * samples@.len()
            &&& b[24] + 256 * b[25] + 65_536 * b[26] + 16_777_216 * b[27] == 16_000
            &&& b[22] == 1
            &&& samples@[i] == if n >= 0x8000 {
                n - 0x1_0000
            } else {
                n
            }
        }),
{
    law_files_say_what_they_hold(samples@);
    law_samples_stand_in_order(samples@, i);
    let b = r->Ok_0@;
    let s = b.skip(44);
    assert(s[2 * i] == b[44 + 2 * i]);
    assert(s[2 * i + 1] == b[45 + 2 * i]);
}

} // verus!

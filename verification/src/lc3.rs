//! The shape of LC3 frames, and the checks around Google's reference codec.
//!
//! liblc3 is a C library that the program links. What is decided here is what it
//! may be handed: which rates and durations exist, how many samples a frame has,
//! how many bytes it may take, and what its return codes mean.

use crate::text::{decimal, push_decimal};
use vstd::prelude::*;
use vstd::string::*;

verus! {

pub const LC3_MIN_BITRATE: i32 = 16_000;

pub const LC3_MAX_BITRATE: i32 = 320_000;

pub const LC3_HR_MAX_BITRATE: i32 = 672_000;

pub const LC3_MIN_FRAME_BYTES: i32 = 20;

pub const LC3_MAX_FRAME_BYTES: i32 = 400;

pub const LC3_HR_MAX_FRAME_BYTES: i32 = 625;

/// Why a frame or a configuration was refused.
#[derive(Debug, Clone, Copy, PartialEq, Eq, Structural)]
pub enum Lc3Error {
    UnsupportedConfiguration { frame_duration_us: u32, sample_rate: u32 },
    WrongFrameLength { got: usize, expected: usize },
    FrameSizeOutOfRange(usize),
    Rejected,
}

/// The text that reports an `Lc3Error`.
pub open spec fn lc3_error_text(error: Lc3Error) -> Seq<char> {
    match error {
        Lc3Error::UnsupportedConfiguration { frame_duration_us, sample_rate } =>
            "liblc3 rejected the configuration: "@ + decimal(frame_duration_us as nat) + " us at "@
                + decimal(sample_rate as nat) + " Hz"@,
        Lc3Error::WrongFrameLength { got, expected } => "frame must be exactly "@ + decimal(
            expected as nat,
        ) + " samples, got "@ + decimal(got as nat),
        Lc3Error::FrameSizeOutOfRange(size) => "frame size "@ + decimal(size as nat)
            + " bytes is outside what LC3 can carry"@,
        Lc3Error::Rejected => "liblc3 rejected the frame"@,
    }
}

impl Lc3Error {
    /// One line that says what went wrong.
    pub fn to_string(&self) -> (text: String)
        ensures
            text@ == lc3_error_text(*self),
    {
        match self {
            Lc3Error::UnsupportedConfiguration { frame_duration_us, sample_rate } => {
                let mut text = String::from_str("liblc3 rejected the configuration: ");
                push_decimal(&mut text, *frame_duration_us as u64);
                text.append(" us at ");
                push_decimal(&mut text, *sample_rate as u64);
                text.append(" Hz");
                text
            },
            Lc3Error::WrongFrameLength { got, expected } => {
                let mut text = String::from_str("frame must be exactly ");
                push_decimal(&mut text, *expected as u64);
                text.append(" samples, got ");
                push_decimal(&mut text, *got as u64);
                text
            },
            Lc3Error::FrameSizeOutOfRange(size) => {
                let mut text = String::from_str("frame size ");
                push_decimal(&mut text, *size as u64);
                text.append(" bytes is outside what LC3 can carry");
                text
            },
            Lc3Error::Rejected => String::from_str("liblc3 rejected the frame"),
        }
    }
}

/// Whether LC3 defines a frame of this duration.
pub open spec fn is_frame_duration(us: int) -> bool {
    us == 2_500 || us == 5_000 || us == 7_500 || us == 10_000
}

/// Whether LC3 defines this sample rate.
pub open spec fn is_sample_rate(hz: int) -> bool {
    hz == 8_000 || hz == 16_000 || hz == 24_000 || hz == 32_000 || hz == 48_000
}

/// How many samples a frame has, where LC3 defines it.
pub open spec fn frame_samples(us: int, hz: int) -> Option<int> {
    if is_frame_duration(us) && is_sample_rate(hz) {
        Some(us * hz / 1_000_000)
    } else {
        None
    }
}

/// How many samples a frame of one channel has, and -1 for a duration or a rate
/// that LC3 does not define.
pub fn lc3_frame_samples(dt_us: i32, sr_hz: i32) -> (samples: i32)
    ensures
        samples == match frame_samples(dt_us as int, sr_hz as int) {
            Some(n) => n,
            None => -1,
        },
{
    if dt_us != 2_500 && dt_us != 5_000 && dt_us != 7_500 && dt_us != 10_000 {
        return -1;
    }
    if sr_hz != 8_000 && sr_hz != 16_000 && sr_hz != 24_000 && sr_hz != 32_000 && sr_hz
        != 48_000 {
        return -1;
    }
    proof {
        assert(0 <= dt_us as int * sr_hz as int <= 480_000_000) by (nonlinear_arith)
            requires
                0 <= dt_us <= 10_000,
                0 <= sr_hz <= 48_000,
        ;
    }
    dt_us * sr_hz / 1_000_000
}

/// Whether LC3 has frames of so many bytes.
pub open spec fn fits_a_frame(bytes: int) -> bool {
    LC3_MIN_FRAME_BYTES <= bytes <= LC3_MAX_FRAME_BYTES
}

/// A frame size liblc3 will accept. Checked here rather than trusted, because
/// the value arrives from the negotiated configuration and a device is free to
/// ask for something the codec cannot express.
pub fn check_frame_bytes(nbytes: usize) -> (checked: Result<i32, Lc3Error>)
    ensures
        checked == if fits_a_frame(nbytes as int) {
            Ok::<i32, Lc3Error>(nbytes as i32)
        } else {
            Err::<i32, Lc3Error>(Lc3Error::FrameSizeOutOfRange(nbytes))
        },
{
    if nbytes < LC3_MIN_FRAME_BYTES as usize || nbytes > LC3_MAX_FRAME_BYTES as usize {
        return Err(Lc3Error::FrameSizeOutOfRange(nbytes));
    }
    Ok(nbytes as i32)
}

fn samples_for(frame_duration_us: u32, sample_rate: u32) -> (samples: Result<usize, Lc3Error>)
    ensures
        match frame_samples(frame_duration_us as int, sample_rate as int) {
            Some(n) => samples == Ok::<usize, Lc3Error>(n as usize) && 0 < n <= 480,
            None => samples == Err::<usize, Lc3Error>(
                Lc3Error::UnsupportedConfiguration { frame_duration_us, sample_rate },
            ),
        },
{
    let refused = Lc3Error::UnsupportedConfiguration { frame_duration_us, sample_rate };
    if frame_duration_us > 10_000 || sample_rate > 48_000 {
        return Err(refused);
    }
    let samples = lc3_frame_samples(frame_duration_us as i32, sample_rate as i32);
    if samples <= 0 {
        proof {
            if is_frame_duration(frame_duration_us as int) && is_sample_rate(sample_rate as int) {
                lemma_frame_is_not_empty(frame_duration_us as int, sample_rate as int);
            }
        }
        return Err(refused);
    }
    proof {
        lemma_frame_is_not_empty(frame_duration_us as int, sample_rate as int);
    }
    Ok(samples as usize)
}

proof fn lemma_frame_is_not_empty(us: int, hz: int)
    requires
        is_frame_duration(us),
        is_sample_rate(hz),
    ensures
        0 < us * hz / 1_000_000 <= 480,
{
    assert(20_000_000 <= us * hz <= 480_000_000) by (nonlinear_arith)
        requires
            2_500 <= us <= 10_000,
            8_000 <= hz <= 48_000,
    ;
}

/// One LC3 encoder per channel.
///
/// liblc3 is a mono codec, so a stereo stream is two contexts that never share
/// state. That matches how the audio reaches the air anyway - two CIS, each
/// carrying one channel.
#[derive(Debug, Clone, Copy, PartialEq, Eq, Structural)]
pub struct Encoder {
    channels: usize,
    samples_per_frame: usize,
}

impl Encoder {
    /// The channel count, at least one, and the samples per frame.
    pub closed spec fn shape(self) -> (usize, usize) {
        (self.channels, self.samples_per_frame)
    }

    pub fn new(channels: usize, frame_duration_us: u32, sample_rate: u32) -> (encoder: Result<
        Self,
        Lc3Error,
    >)
        ensures
            match frame_samples(frame_duration_us as int, sample_rate as int) {
                Some(n) => encoder matches Ok(e) && e.shape() == (
                    if channels == 0 {
                        1
                    } else {
                        channels
                    },
                    n as usize,
                ),
                None => encoder == Err::<Encoder, Lc3Error>(
                    Lc3Error::UnsupportedConfiguration { frame_duration_us, sample_rate },
                ),
            },
    {
        let samples_per_frame = match samples_for(frame_duration_us, sample_rate) {
            Ok(samples) => samples,
            Err(error) => return Err(error),
        };
        Ok(
            Encoder {
                channels: if channels == 0 {
                    1
                } else {
                    channels
                },
                samples_per_frame,
            },
        )
    }

    pub fn samples_per_frame(&self) -> (samples: usize)
        ensures
            samples == self.shape().1,
    {
        self.samples_per_frame
    }

    pub fn channels(&self) -> (count: usize)
        ensures
            count == self.shape().0,
    {
        self.channels
    }

    /// Whether one channel's frame may be handed to the codec, and for how many
    /// bytes.
    ///
    /// LC3 is fixed-rate: the output length is part of the configuration the
    /// device was told to expect, not something the encoder chooses.
    pub fn check(&self, channel: usize, samples: usize, out_bytes: usize) -> (bytes: Result<
        i32,
        Lc3Error,
    >)
        ensures
            bytes == if samples != self.shape().1 {
                Err::<i32, Lc3Error>(
                    Lc3Error::WrongFrameLength { got: samples, expected: self.shape().1 },
                )
            } else if channel >= self.shape().0 {
                Err::<i32, Lc3Error>(Lc3Error::Rejected)
            } else if fits_a_frame(out_bytes as int) {
                Ok::<i32, Lc3Error>(out_bytes as i32)
            } else {
                Err::<i32, Lc3Error>(Lc3Error::FrameSizeOutOfRange(out_bytes))
            },
    {
        if samples != self.samples_per_frame {
            return Err(
                Lc3Error::WrongFrameLength { got: samples, expected: self.samples_per_frame },
            );
        }
        if channel >= self.channels {
            return Err(Lc3Error::Rejected);
        }
        check_frame_bytes(out_bytes)
    }

    /// What the codec's return code means: only zero is an encoded frame.
    pub fn encoded(code: i32) -> (result: Result<(), Lc3Error>)
        ensures
            result == if code == 0 {
                Ok::<(), Lc3Error>(())
            } else {
                Err::<(), Lc3Error>(Lc3Error::Rejected)
            },
    {
        if code == 0 {
            Ok(())
        } else {
            Err(Lc3Error::Rejected)
        }
    }
}

/// A single-channel decoder, for the headset's microphone stream.
#[derive(Debug, Clone, Copy, PartialEq, Eq, Structural)]
pub struct Decoder {
    samples_per_frame: usize,
}

impl Decoder {
    /// The samples per frame.
    pub closed spec fn frame(self) -> usize {
        self.samples_per_frame
    }

    pub fn new(frame_duration_us: u32, sample_rate: u32) -> (decoder: Result<Self, Lc3Error>)
        ensures
            match frame_samples(frame_duration_us as int, sample_rate as int) {
                Some(n) => decoder matches Ok(d) && d.frame() == n,
                None => decoder == Err::<Decoder, Lc3Error>(
                    Lc3Error::UnsupportedConfiguration { frame_duration_us, sample_rate },
                ),
            },
    {
        match samples_for(frame_duration_us, sample_rate) {
            Ok(samples_per_frame) => Ok(Decoder { samples_per_frame }),
            Err(error) => Err(error),
        }
    }

    pub fn samples_per_frame(&self) -> (samples: usize)
        ensures
            samples == self.frame(),
    {
        self.samples_per_frame
    }

    /// Whether a frame may be handed to the codec, and with how many bytes. An
    /// empty payload asks for packet loss concealment, which is how a dropped
    /// SDU should be handled: the gap is filled from the previous frame rather
    /// than left as a click. That is zero bytes.
    pub fn check(&self, payload_bytes: usize, out_samples: usize) -> (bytes: Result<i32, Lc3Error>)
        ensures
            bytes == if out_samples != self.frame() {
                Err::<i32, Lc3Error>(
                    Lc3Error::WrongFrameLength { got: out_samples, expected: self.frame() },
                )
            } else if payload_bytes == 0 {
                Ok::<i32, Lc3Error>(0)
            } else if fits_a_frame(payload_bytes as int) {
                Ok::<i32, Lc3Error>(payload_bytes as i32)
            } else {
                Err::<i32, Lc3Error>(Lc3Error::FrameSizeOutOfRange(payload_bytes))
            },
    {
        if out_samples != self.samples_per_frame {
            return Err(
                Lc3Error::WrongFrameLength { got: out_samples, expected: self.samples_per_frame },
            );
        }
        if payload_bytes == 0 {
            return Ok(0);
        }
        check_frame_bytes(payload_bytes)
    }

    /// What the codec's return code means. Zero is a decoded frame and one means
    /// concealment ran. Both produced usable audio; only less is a rejected
    /// frame.
    pub fn decoded(code: i32) -> (result: Result<(), Lc3Error>)
        ensures
            result == if code >= 0 {
                Ok::<(), Lc3Error>(())
            } else {
                Err::<(), Lc3Error>(Lc3Error::Rejected)
            },
    {
        if code >= 0 {
            Ok(())
        } else {
            Err(Lc3Error::Rejected)
        }
    }
}

/// A frame holds exactly the samples that its duration has at its rate, and only
/// the durations and rates of LC3 have frames.
pub proof fn a_frame_holds_its_duration(us: int, hz: int)
    ensures
        frame_samples(us, hz) is Some <==> (us == 2_500 || us == 5_000 || us == 7_500 || us
            == 10_000) && (hz == 8_000 || hz == 16_000 || hz == 24_000 || hz == 32_000 || hz
            == 48_000),
        frame_samples(us, hz) matches Some(samples) ==> samples * 1_000_000 == us * hz,
        LC3_MIN_FRAME_BYTES == 20 && LC3_MAX_FRAME_BYTES == 400,
{
    if is_frame_duration(us) && is_sample_rate(hz) {
        let (a, b) = (us / 500, hz / 8_000);
        assert(us == 500 * a && hz == 8_000 * b);
        assert(us * hz == 4_000_000 * (a * b)) by (nonlinear_arith)
            requires
                us == 500 * a,
                hz == 8_000 * b,
        ;
    }
}

/// LC3 has frames of 20 to 400 bytes, and what BAP defines lies within.
pub proof fn a_frame_has_20_to_400_bytes(bytes: int)
    ensures
        fits_a_frame(bytes) <==> 20 <= bytes <= 400,
{
}

} // verus!

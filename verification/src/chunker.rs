//! Chunk buffering: when a chunk is complete, what it holds, and what is
//! kept back as overlap for the next one.

use vstd::prelude::*;
use crate::mixer::{f32_to_i16, interleave_stereo, interleaved, pcm, MixMode, Sample};
use crate::text::{push_char, push_padded, zero_padded};

verus! {

/// The sample rate of every file that the chunker hands on.
pub const TARGET_RATE: u32 = 16000;

/// Chunking parameters, in whole seconds.
pub struct ChunkConfig {
    pub chunk_duration: u32,
    pub overlap: u32,
    pub output_dir: String,
}

/// The overlap that is applied for a requested `overlap` and a chunk length
/// of `chunk_duration` seconds: at most one second less than the chunk.
pub open spec fn clamped_overlap(chunk_duration: int, overlap: int) -> int {
    let cap = if chunk_duration >= 1 {
        chunk_duration - 1
    } else {
        0
    };
    if overlap <= cap {
        overlap
    } else {
        cap
    }
}

/// The number of interleaved samples in `seconds` of audio.
pub open spec fn samples_in(seconds: int, rate: int, channels: int) -> int {
    seconds * rate * channels
}

impl ChunkConfig {
    /// The overlap in seconds after clamping.
    pub fn effective_overlap(&self) -> (seconds: u32)
        ensures
            seconds == clamped_overlap(self.chunk_duration as int, self.overlap as int),
    {
        let cap: u32 = if self.chunk_duration >= 1 {
            self.chunk_duration - 1
        } else {
            0
        };
        if self.overlap <= cap {
            self.overlap
        } else {
            cap
        }
    }
}

/// Counts the interleaved samples in `seconds` of audio at `rate` Hz with
/// `channels` channels. The product always fits.
pub fn sample_count(seconds: u32, rate: u32, channels: u16) -> (count: u128)
    ensures
        count == samples_in(seconds as int, rate as int, channels as int),
{
    assert(seconds * rate <= 0xffff_ffff * 0xffff_ffff) by (nonlinear_arith)
        requires
            0 <= seconds <= 0xffff_ffff,
            0 <= rate <= 0xffff_ffff,
    ;
    let frames: u128 = (seconds as u128) * (rate as u128);
    assert(frames * channels <= 0xffff_ffff * 0xffff_ffff * 0xffff) by (nonlinear_arith)
        requires
            0 <= frames <= 0xffff_ffff * 0xffff_ffff,
            0 <= channels <= 0xffff,
    ;
    frames * (channels as u128)
}

/// The growing buffer of one capture source, with the two lengths that
/// govern it.
pub struct SourceBuffer {
    /// Interleaved samples received since the last flush, oldest first,
    /// preceded by the overlap kept from the chunk before.
    pub samples: Vec<Sample>,
    /// A chunk is complete once this many samples are buffered.
    pub chunk_samples: u128,
    /// At most this many trailing samples survive a flush.
    pub overlap_samples: u128,
}

/// The tail of `samples` that a flush keeps: its last `overlap` items, or
/// all of it where it is shorter.
pub open spec fn retained(samples: Seq<Sample>, overlap: int) -> Seq<Sample> {
    if samples.len() <= overlap {
        samples
    } else {
        samples.skip(samples.len() - overlap)
    }
}

impl SourceBuffer {
    /// An empty buffer for a source of the given format.
    pub fn new(config: &ChunkConfig, rate: u32, channels: u16) -> (buffer: SourceBuffer)
        ensures
            buffer.samples@.len() == 0,
            buffer.chunk_samples == samples_in(
                config.chunk_duration as int,
                rate as int,
                channels as int,
            ),
            buffer.overlap_samples == samples_in(
                clamped_overlap(config.chunk_duration as int, config.overlap as int),
                rate as int,
                channels as int,
            ),
    {
        SourceBuffer {
            samples: Vec::new(),
            chunk_samples: sample_count(config.chunk_duration, rate, channels),
            overlap_samples: sample_count(config.effective_overlap(), rate, channels),
        }
    }

    /// Appends a block of received samples.
    pub fn extend(&mut self, block: &[Sample])
        ensures
            final(self).samples@ == old(self).samples@ + block@,
            final(self).chunk_samples == old(self).chunk_samples,
            final(self).overlap_samples == old(self).overlap_samples,
    {
        self.samples.extend_from_slice(block);
        assert(self.samples@ =~= old(self).samples@ + block@);
    }

    /// Whether a full chunk is buffered.
    pub fn is_full(&self) -> (full: bool)
        ensures
            full == (self.samples@.len() >= self.chunk_samples),
    {
        self.samples.len() as u128 >= self.chunk_samples
    }

    /// Hands out everything that is buffered and keeps only the overlap
    /// tail for the next chunk.
    pub fn flush(&mut self) -> (chunk: Vec<Sample>)
        ensures
            chunk@ == old(self).samples@,
            final(self).samples@ == retained(old(self).samples@, old(self).overlap_samples as int),
            final(self).samples@.len() == if old(self).samples@.len() <= old(self).overlap_samples {
                old(self).samples@.len()
            } else {
                old(self).overlap_samples as nat
            },
            final(self).chunk_samples == old(self).chunk_samples,
            final(self).overlap_samples == old(self).overlap_samples,
    {
        let len = self.samples.len();
        let keep: usize = if (len as u128) <= self.overlap_samples {
            len
        } else {
            self.overlap_samples as usize
        };
        let tail = self.samples.split_off(len - keep);
        let mut chunk: Vec<Sample> = Vec::new();
        core::mem::swap(&mut chunk, &mut self.samples);
        chunk.extend_from_slice(tail.as_slice());
        self.samples = tail;
        assert(chunk@ =~= old(self).samples@);
        assert(self.samples@ =~= retained(old(self).samples@, old(self).overlap_samples as int));
        chunk
    }
}

/// The two buffers of a dual-source capture.
pub struct Chunker {
    pub system: SourceBuffer,
    pub mic: SourceBuffer,
}

/// One chunk as buffered, before any processing: the interleaved samples of
/// each source at its native rate.
pub struct RawChunk {
    pub system: Vec<Sample>,
    pub mic: Vec<Sample>,
}

/// What the capture loop does after it has drained both queues once.
pub struct Poll {
    /// Nothing arrived: pause briefly before polling again.
    pub sleep: bool,
    /// A chunk was completed and is handed out for writing.
    pub chunk: Option<RawChunk>,
}

impl Chunker {
    /// Empty buffers for a system source and a microphone source, whose
    /// formats need not agree.
    pub fn new(
        config: &ChunkConfig,
        system_rate: u32,
        system_channels: u16,
        mic_rate: u32,
        mic_channels: u16,
    ) -> (chunker: Chunker)
        ensures
            chunker.system.samples@.len() == 0,
            chunker.mic.samples@.len() == 0,
            chunker.system.chunk_samples == samples_in(
                config.chunk_duration as int,
                system_rate as int,
                system_channels as int,
            ),
            chunker.mic.chunk_samples == samples_in(
                config.chunk_duration as int,
                mic_rate as int,
                mic_channels as int,
            ),
            chunker.system.overlap_samples == samples_in(
                clamped_overlap(config.chunk_duration as int, config.overlap as int),
                system_rate as int,
                system_channels as int,
            ),
            chunker.mic.overlap_samples == samples_in(
                clamped_overlap(config.chunk_duration as int, config.overlap as int),
                mic_rate as int,
                mic_channels as int,
            ),
    {
        Chunker {
            system: SourceBuffer::new(config, system_rate, system_channels),
            mic: SourceBuffer::new(config, mic_rate, mic_channels),
        }
    }

    /// A chunk is ready as soon as either source has a full chunk buffered.
    pub open spec fn ready(&self) -> bool {
        self.system.samples@.len() >= self.system.chunk_samples || self.mic.samples@.len()
            >= self.mic.chunk_samples
    }

    /// Whether nothing at all is buffered.
    pub open spec fn idle(&self) -> bool {
        self.system.samples@.len() == 0 && self.mic.samples@.len() == 0
    }

    /// The state after a flush: each buffer cut down to its overlap tail.
    pub open spec fn flushed(&self, after: &Chunker) -> bool {
        &&& after.system.samples@ == retained(
            self.system.samples@,
            self.system.overlap_samples as int,
        )
        &&& after.mic.samples@ == retained(self.mic.samples@, self.mic.overlap_samples as int)
        &&& after.system.chunk_samples == self.system.chunk_samples
        &&& after.system.overlap_samples == self.system.overlap_samples
        &&& after.mic.chunk_samples == self.mic.chunk_samples
        &&& after.mic.overlap_samples == self.mic.overlap_samples
    }

    /// Whether a chunk is ready.
    pub fn chunk_ready(&self) -> (ready: bool)
        ensures
            ready == self.ready(),
    {
        self.system.is_full() || self.mic.is_full()
    }

    /// Flushes both buffers together, whichever of them was full: the shorter
    /// side simply contributes less. Nothing is handed out when both are
    /// empty. Also used for the final, partial chunk.
    pub fn flush(&mut self) -> (chunk: Option<RawChunk>)
        ensures
            old(self).flushed(final(self)),
            chunk is None <==> old(self).idle(),
            chunk matches Some(raw) ==> raw.system@ == old(self).system.samples@ && raw.mic@
                == old(self).mic.samples@,
    {
        let system = self.system.flush();
        let mic = self.mic.flush();
        if system.len() == 0 && mic.len() == 0 {
            None
        } else {
            Some(RawChunk { system, mic })
        }
    }

    /// One turn of the capture loop, taken after both queues were drained
    /// into the buffers: sleep if nothing arrived, flush if a chunk is ready.
    pub fn poll(&mut self, got_data: bool) -> (next: Poll)
        ensures
            next.sleep == !got_data,
            !old(self).ready() ==> next.chunk is None && *final(self) == *old(self),
            old(self).ready() ==> {
                &&& old(self).flushed(final(self))
                &&& next.chunk is None <==> old(self).idle()
                &&& next.chunk matches Some(raw) ==> raw.system@ == old(self).system.samples@
                    && raw.mic@ == old(self).mic.samples@
            },
    {
        let chunk = if self.chunk_ready() {
            self.flush()
        } else {
            None
        };
        Poll { sleep: !got_data, chunk }
    }
}

/// A local calendar time, broken down into its fields.
#[derive(Clone, Copy, Debug, PartialEq, Eq, Structural)]
pub struct LocalTime {
    pub year: u32,
    pub month: u32,
    pub day: u32,
    pub hour: u32,
    pub minute: u32,
    pub second: u32,
}

/// The date as `YYYY-MM-DD`.
pub open spec fn date_text(t: LocalTime) -> Seq<char> {
    zero_padded(t.year as nat, 4).push('-') + zero_padded(t.month as nat, 2).push('-')
        + zero_padded(t.day as nat, 2)
}

/// The time of day as `HH-MM-SS`.
pub open spec fn clock_text(t: LocalTime) -> Seq<char> {
    zero_padded(t.hour as nat, 2).push('-') + zero_padded(t.minute as nat, 2).push('-')
        + zero_padded(t.second as nat, 2)
}

/// Formats a local time as the pair of strings by which chunks are named:
/// the date (`2026-02-15`) and the time of day (`14-30-05`), both
/// zero-padded.
pub fn local_timestamp(t: &LocalTime) -> (stamp: (String, String))
    ensures
        stamp.0@ == date_text(*t),
        stamp.1@ == clock_text(*t),
{
    let mut date = String::new();
    push_padded(&mut date, t.year as u64, 4);
    push_char(&mut date, '-');
    push_padded(&mut date, t.month as u64, 2);
    push_char(&mut date, '-');
    push_padded(&mut date, t.day as u64, 2);
    assert(date@ =~= date_text(*t));
    let mut time = String::new();
    push_padded(&mut time, t.hour as u64, 2);
    push_char(&mut time, '-');
    push_padded(&mut time, t.minute as u64, 2);
    push_char(&mut time, '-');
    push_padded(&mut time, t.second as u64, 2);
    assert(time@ =~= clock_text(*t));
    (date, time)
}

/// The name of a chunk's audio file: the time of day, then the source's
/// label if it has one, then `.wav`.
pub open spec fn wav_name(time: Seq<char>, label: Seq<char>) -> Seq<char> {
    if label.len() == 0 {
        time + ".wav"@
    } else {
        time.push('_') + label + ".wav"@
    }
}

/// Names the audio file of a chunk completed at `time`: `{time}.wav`, or
/// `{time}_{label}.wav` for a source with a label.
pub fn wav_file_name(time: &str, label: &str) -> (name: String)
    ensures
        name@ == wav_name(time@, label@),
{
    let mut name = String::new();
    name.append(time);
    if !label.is_empty() {
        push_char(&mut name, '_');
        name.append(label);
    }
    name.append(".wav");
    assert(name@ =~= wav_name(time@, label@));
    name
}

/// One audio file to write: its name, its channel count and its samples.
#[derive(Debug, PartialEq, Eq)]
pub struct WavFile {
    pub name: String,
    pub channels: u16,
    pub samples: Vec<i16>,
}

/// The files of one dual-source chunk.
#[derive(Debug, PartialEq, Eq)]
pub enum ChunkAudio {
    /// One stereo file: left is system, right is microphone.
    Stereo(WavFile),
    /// One mono file per source. Only this layout is handed on to
    /// transcription.
    Split { system: WavFile, mic: WavFile },
}

/// Lays out a processed chunk for writing. `system` and `mic` are the two
/// sources' samples after processing, at the target rate.
///
/// In stereo mode the two are interleaved into `{time}.wav`, the shorter
/// one padded with silence. In split mode they go to `{time}_system.wav` and
/// `{time}_mic.wav`.
pub fn encode_chunk(system: &[Sample], mic: &[Sample], mode: MixMode, time: &str) -> (audio:
    ChunkAudio)
    ensures
        mode == MixMode::Stereo ==> {
            &&& audio matches ChunkAudio::Stereo(file)
            &&& file.name@ == wav_name(time@, Seq::empty())
            &&& file.channels == 2
            &&& file.samples@ == pcm(interleaved(system@, mic@))
        },
        mode == MixMode::Split ==> {
            &&& audio matches ChunkAudio::Split { system: first, mic: second }
            &&& first.name@ == wav_name(time@, "system"@)
            &&& first.channels == 1
            &&& first.samples@ == pcm(system@)
            &&& second.name@ == wav_name(time@, "mic"@)
            &&& second.channels == 1
            &&& second.samples@ == pcm(mic@)
        },
{
    match mode {
        MixMode::Stereo => {
            let stereo = interleave_stereo(system, mic);
            let samples = f32_to_i16(stereo.as_slice());
            let name = wav_file_name(time, "");
            proof {
                reveal_strlit("");
                assert(""@ =~= Seq::<char>::empty());
            }
            ChunkAudio::Stereo(WavFile { name, channels: 2, samples })
        },
        MixMode::Split => {
            ChunkAudio::Split {
                system: WavFile {
                    name: wav_file_name(time, "system"),
                    channels: 1,
                    samples: f32_to_i16(system),
                },
                mic: WavFile {
                    name: wav_file_name(time, "mic"),
                    channels: 1,
                    samples: f32_to_i16(mic),
                },
            }
        },
    }
}

/// Lays out a processed chunk of a single source: one mono file named after
/// the time and the source's label.
pub fn encode_single(samples: &[Sample], time: &str, label: &str) -> (file: WavFile)
    ensures
        file.name@ == wav_name(time@, label@),
        file.channels == 1,
        file.samples@ == pcm(samples@),
{
    WavFile { name: wav_file_name(time, label), channels: 1, samples: f32_to_i16(samples) }
}

} // verus!

//! What happens to one chunk pair after capture: which channels are worth
//! transcribing, what the chunk's result is, and what is written for it.

use vstd::prelude::*;
use crate::merge::{
    label_other,
    label_you,
    merge_transcripts,
    merged,
    other,
    speaker_views,
    view_of,
    you,
    SpeakerSegment,
    SpeakerSegmentView,
};
use crate::text::{
    chars_of,
    decimal,
    push_char,
    push_decimal,
    push_padded,
    replaced,
    trim,
    trimmed,
    zero_padded,
};
use crate::transcribe::{Transcript, TranscribeConfig};

verus! {

/// The two audio files of one chunk, with the local date and time of day at
/// which the chunk was completed.
#[derive(Debug, PartialEq, Eq)]
pub struct ChunkPair {
    /// Time of day as `HH-MM-SS`.
    pub timestamp: String,
    /// Date as `YYYY-MM-DD`.
    pub date: String,
    pub system_path: String,
    pub mic_path: String,
}

/// Settings of the transcription workers.
pub struct PipelineConfig {
    pub transcribe: TranscribeConfig,
    pub output_dir: String,
    pub transcript_path: String,
    pub concurrency: usize,
    pub save_audio: bool,
}

/// The audio files that a chunk result refers to.
#[derive(Debug, PartialEq, Eq)]
pub struct AudioFiles {
    pub system: String,
    pub mic: String,
}

/// What is recorded for one transcribed chunk.
#[derive(Debug, PartialEq, Eq)]
pub struct ChunkResult {
    pub timestamp_start: String,
    pub timestamp_end: String,
    /// Length of the chunk's audio in microseconds.
    pub duration: i64,
    pub segments: Vec<SpeakerSegment>,
    pub audio_files: AudioFiles,
}

/// The mathematical content of a [`ChunkResult`].
pub struct ChunkResultView {
    pub timestamp_start: Seq<char>,
    pub timestamp_end: Seq<char>,
    pub duration: int,
    pub segments: Seq<SpeakerSegmentView>,
    pub system_file: Seq<char>,
    pub mic_file: Seq<char>,
}

impl View for ChunkResult {
    type V = ChunkResultView;

    open spec fn view(&self) -> ChunkResultView {
        ChunkResultView {
            timestamp_start: self.timestamp_start@,
            timestamp_end: self.timestamp_end@,
            duration: self.duration as int,
            segments: speaker_views(self.segments@),
            system_file: self.audio_files.system@,
            mic_file: self.audio_files.mic@,
        }
    }
}

/// The samples of one 16-bit audio file, or the fact that it could not be
/// opened.
#[derive(Debug, PartialEq, Eq)]
pub enum WavAudio {
    Unreadable,
    Samples(Vec<i16>),
}

/// The sum of the squares of the samples.
pub open spec fn energy(samples: Seq<i16>) -> int
    decreases samples.len(),
{
    if samples.len() == 0 {
        0
    } else {
        energy(samples.drop_last()) + samples.last() * samples.last()
    }
}

/// Whether the samples are silence: there are none, or their root mean
/// square, with 32767 as full scale, is below one hundredth. In whole
/// numbers: `energy / (32767² · n) < 1 / 100²`.
pub open spec fn silent(samples: Seq<i16>) -> bool {
    samples.len() == 0 || 10000 * energy(samples) < 32767 * 32767 * samples.len()
}

/// Whether a channel is skipped as silent. A file that cannot be opened is
/// not treated as silent, so that the backend gets to report what is wrong
/// with it.
pub open spec fn audio_silent(audio: WavAudio) -> bool {
    match audio {
        WavAudio::Unreadable => false,
        WavAudio::Samples(samples) => silent(samples@),
    }
}

/// The energy of `n` samples is at most `n` times the greatest square.
proof fn lemma_energy_bound(samples: Seq<i16>)
    ensures
        0 <= energy(samples) <= samples.len() * 0x4000_0000,
    decreases samples.len(),
{
    if samples.len() > 0 {
        lemma_energy_bound(samples.drop_last());
        let last = samples.last() as int;
        assert(0 <= last * last <= 0x4000_0000) by (nonlinear_arith)
            requires
                -0x8000 <= last <= 0x7fff,
        ;
        assert(samples.len() * 0x4000_0000 == (samples.len() - 1) * 0x4000_0000 + 0x4000_0000)
            by (nonlinear_arith);
    }
}

/// Tells whether a channel's audio is silence.
pub fn is_silent(audio: &WavAudio) -> (quiet: bool)
    ensures
        quiet == audio_silent(*audio),
{
    match audio {
        WavAudio::Unreadable => false,
        WavAudio::Samples(samples) => {
            let len = samples.len();
            if len == 0 {
                return true;
            }
            let mut sum: u128 = 0;
            let mut i: usize = 0;
            while i < len
                invariant
                    i <= len == samples@.len(),
                    sum == energy(samples@.take(i as int)),
                decreases len - i,
            {
                proof {
                    assert(samples@.take(i + 1).drop_last() =~= samples@.take(i as int));
                    lemma_energy_bound(samples@.take(i + 1));
                    assert((i + 1) * 0x4000_0000 <= 0xffff_ffff_ffff_ffff * 0x4000_0000)
                        by (nonlinear_arith)
                        requires
                            i + 1 <= 0xffff_ffff_ffff_ffff,
                    ;
                }
                let s = samples[i] as i64;
                assert(0 <= s * s <= 0x4000_0000) by (nonlinear_arith)
                    requires
                        -0x8000 <= s <= 0x7fff,
                ;
                sum = sum + (s * s) as u128;
                i += 1;
            }
            proof {
                assert(samples@.take(len as int) =~= samples@);
                lemma_energy_bound(samples@);
                assert(len * 0x4000_0000 <= 0xffff_ffff_ffff_ffff * 0x4000_0000) by (nonlinear_arith)
                    requires
                        len <= 0xffff_ffff_ffff_ffff,
                ;
                assert(32767 * 32767 * len <= 32767 * 32767 * 0xffff_ffff_ffff_ffff)
                    by (nonlinear_arith)
                    requires
                        len <= 0xffff_ffff_ffff_ffff,
                ;
            }
            10000 * sum < 32767 * 32767 * (len as u128)
        },
    }
}

/// Digital silence is silent: a file of zeros is always skipped.
pub proof fn lemma_zeros_are_silent(samples: Seq<i16>)
    requires
        forall|i: int| 0 <= i < samples.len() ==> #[trigger] samples[i] == 0,
    ensures
        energy(samples) == 0,
        silent(samples),
    decreases samples.len(),
{
    if samples.len() > 0 {
        let rest = samples.drop_last();
        assert forall|i: int| 0 <= i < rest.len() implies #[trigger] rest[i] == 0 by {
            assert(rest[i] == samples[i]);
        }
        lemma_zeros_are_silent(rest);
        assert(0 < 32767 * 32767 * samples.len()) by (nonlinear_arith)
            requires
                samples.len() > 0,
        ;
    }
}

/// A steady level is silent exactly if it is below one hundredth of full
/// scale.
pub proof fn lemma_constant_level(samples: Seq<i16>, level: i16)
    requires
        samples.len() > 0,
        forall|i: int| 0 <= i < samples.len() ==> #[trigger] samples[i] == level,
    ensures
        energy(samples) == samples.len() * (level * level),
        silent(samples) <==> 10000 * (level * level) < 32767 * 32767,
    decreases samples.len(),
{
    let n = samples.len() as int;
    let square = level * level;
    let rest = samples.drop_last();
    if rest.len() > 0 {
        assert forall|i: int| 0 <= i < rest.len() implies #[trigger] rest[i] == level by {
            assert(rest[i] == samples[i]);
        }
        lemma_constant_level(rest, level);
    }
    assert(energy(samples) == n * square) by (nonlinear_arith)
        requires
            energy(samples) == energy(rest) + square,
            energy(rest) == (n - 1) * square,
    ;
    assert((10000 * (n * square) < 32767 * 32767 * n) <==> (10000 * square < 32767 * 32767))
        by (nonlinear_arith)
        requires
            n > 0,
    ;
}

/// Which channels of a chunk go to the backend.
#[derive(Clone, Copy, Debug, PartialEq, Eq, Structural)]
pub enum ChunkWork {
    /// Both channels are silent: the chunk is done, nothing is written.
    Nothing,
    /// Only the system channel carries sound.
    SystemOnly,
    /// Only the microphone channel carries sound.
    MicOnly,
    /// Both channels carry sound.
    Both,
}

/// Decides which channels of a chunk are transcribed: every one that is not
/// silent.
pub fn plan_chunk(system_silent: bool, mic_silent: bool) -> (work: ChunkWork)
    ensures
        work == if system_silent && mic_silent {
            ChunkWork::Nothing
        } else if mic_silent {
            ChunkWork::SystemOnly
        } else if system_silent {
            ChunkWork::MicOnly
        } else {
            ChunkWork::Both
        },
{
    if system_silent && mic_silent {
        ChunkWork::Nothing
    } else if mic_silent {
        ChunkWork::SystemOnly
    } else if system_silent {
        ChunkWork::MicOnly
    } else {
        ChunkWork::Both
    }
}

/// Whether a worker removes the chunk's audio files: only after the chunk
/// was processed without error, and only if the audio is not to be kept.
/// After a failure the files stay, so that the chunk can be tried again.
pub fn should_delete_audio(processed: bool, save_audio: bool) -> (delete: bool)
    ensures
        delete == (processed && !save_audio),
{
    processed && !save_audio
}

/// Builds the result of a chunk from the transcripts of its channels (a
/// silent channel has none): the merged segments and duration, the time
/// the chunk was captured and the time its processing ended, and the audio
/// files it came from.
pub fn build_result(
    pair: &ChunkPair,
    end_time: String,
    system: Option<Transcript>,
    mic: Option<Transcript>,
) -> (result: ChunkResult)
    ensures
        result@ == (ChunkResultView {
            timestamp_start: pair.timestamp@,
            timestamp_end: end_time@,
            duration: merged(view_of(system), view_of(mic)).duration,
            segments: merged(view_of(system), view_of(mic)).segments,
            system_file: pair.system_path@,
            mic_file: pair.mic_path@,
        }),
{
    let both = merge_transcripts(system, mic);
    ChunkResult {
        timestamp_start: pair.timestamp.clone(),
        timestamp_end: end_time,
        duration: both.duration,
        segments: both.segments,
        audio_files: AudioFiles { system: pair.system_path.clone(), mic: pair.mic_path.clone() },
    }
}

/// Turns a dash-separated time of day such as `14-30-05` into `14:30:05`.
pub fn format_timestamp(ts: &str) -> (out: String)
    ensures
        out@ == replaced(ts@, '-', ':'),
{
    let chars = chars_of(ts);
    let mut out = String::new();
    let mut i: usize = 0;
    while i < chars.len()
        invariant
            i <= chars.len(),
            chars@ == ts@,
            out@ == replaced(ts@, '-', ':').take(i as int),
        decreases chars.len() - i,
    {
        let c = chars[i];
        if c == '-' {
            push_char(&mut out, ':');
        } else {
            push_char(&mut out, c);
        }
        assert(replaced(ts@, '-', ':').take(i + 1) =~= replaced(ts@, '-', ':').take(
            i as int,
        ).push(replaced(ts@, '-', ':')[i as int]));
        i += 1;
    }
    assert(replaced(ts@, '-', ':').take(chars.len() as int) =~= replaced(ts@, '-', ':'));
    out
}

/// The whole seconds in a time, a time before zero counting as zero.
pub open spec fn whole_seconds(micros: int) -> nat {
    if micros <= 0 {
        0
    } else {
        (micros / 1_000_000) as nat
    }
}

/// A time as text: `m:SS` from one minute on, `Ns` below.
pub open spec fn time_text(micros: int) -> Seq<char> {
    let seconds = whole_seconds(micros);
    if seconds >= 60 {
        decimal(seconds / 60).push(':') + zero_padded(seconds % 60, 2)
    } else {
        decimal(seconds).push('s')
    }
}

/// Formats a time with second resolution: minutes and zero-padded seconds
/// (`2:05`) where it is a minute or more, plain seconds (`42s`) where it is
/// less.
pub fn format_time(micros: i64) -> (out: String)
    ensures
        out@ == time_text(micros as int),
{
    let seconds: u64 = if micros <= 0 {
        0
    } else {
        (micros / 1_000_000) as u64
    };
    let mut out = String::new();
    if seconds >= 60 {
        push_decimal(&mut out, seconds / 60);
        push_char(&mut out, ':');
        push_padded(&mut out, seconds % 60, 2);
    } else {
        push_decimal(&mut out, seconds);
        push_char(&mut out, 's');
    }
    assert(out@ =~= time_text(micros as int));
    out
}

/// A stretch of consecutive segments of one speaker, as it appears in the
/// narrative document: it begins where the first segment begins, and its
/// text is the segments' texts put together.
#[derive(Debug, PartialEq, Eq)]
pub struct Turn {
    pub speaker: String,
    pub start: i64,
    pub text: String,
}

/// The mathematical content of a [`Turn`].
pub struct TurnView {
    pub speaker: Seq<char>,
    pub start: int,
    pub text: Seq<char>,
}

impl View for Turn {
    type V = TurnView;

    open spec fn view(&self) -> TurnView {
        TurnView { speaker: self.speaker@, start: self.start as int, text: self.text@ }
    }
}

/// The views of a sequence of turns.
pub open spec fn turn_views(turns: Seq<Turn>) -> Seq<TurnView> {
    Seq::new(turns.len(), |i: int| turns[i]@)
}

/// The segments gathered into turns: a segment whose speaker is that of the
/// turn before it continues that turn, any other segment opens a new one.
pub open spec fn turns_of(segments: Seq<SpeakerSegmentView>) -> Seq<TurnView>
    decreases segments.len(),
{
    if segments.len() == 0 {
        Seq::empty()
    } else {
        let before = turns_of(segments.drop_last());
        let segment = segments.last();
        if before.len() > 0 && before.last().speaker == segment.speaker {
            before.drop_last().push(
                TurnView {
                    speaker: before.last().speaker,
                    start: before.last().start,
                    text: before.last().text + segment.text,
                },
            )
        } else {
            before.push(
                TurnView { speaker: segment.speaker, start: segment.start, text: segment.text },
            )
        }
    }
}

/// Gathers consecutive segments of one speaker into turns.
pub fn gather_turns(segments: &Vec<SpeakerSegment>) -> (turns: Vec<Turn>)
    ensures
        turn_views(turns@) == turns_of(speaker_views(segments@)),
{
    let ghost all = speaker_views(segments@);
    let mut turns: Vec<Turn> = Vec::new();
    let mut i: usize = 0;
    while i < segments.len()
        invariant
            i <= segments.len(),
            all == speaker_views(segments@),
            turn_views(turns@) == turns_of(all.take(i as int)),
        decreases segments.len() - i,
    {
        let segment = &segments[i];
        proof {
            assert(all.take(i + 1).drop_last() =~= all.take(i as int));
            assert(all.take(i + 1).last() == segment@);
        }
        let ghost before = turns@;
        let fresh = Turn {
            speaker: segment.speaker.clone(),
            start: segment.start,
            text: segment.text.clone(),
        };
        match turns.pop() {
            Some(mut last) => {
                assert(last@ == turn_views(before).last());
                assert(turn_views(turns@) =~= turn_views(before).drop_last());
                if last.speaker == segment.speaker {
                    last.text.append(segment.text.as_str());
                    let ghost shorter = turns@;
                    turns.push(last);
                    assert(turn_views(turns@) =~= turn_views(shorter).push(last@));
                } else {
                    turns.push(last);
                    assert(turns@ =~= before);
                    turns.push(fresh);
                    assert(turn_views(turns@) =~= turn_views(before).push(fresh@));
                }
            },
            None => {
                turns.push(fresh);
                assert(turn_views(turns@) =~= turn_views(before).push(fresh@));
            },
        }
        i += 1;
    }
    assert(all.take(all.len() as int) =~= all);
    turns
}

/// How a speaker is named in the narrative document.
pub open spec fn speaker_name(speaker: Seq<char>) -> Seq<char> {
    if speaker == label_you() {
        "You"@
    } else if speaker == label_other() {
        "Other"@
    } else {
        speaker
    }
}

/// The paragraph of one turn.
pub open spec fn turn_text(turn: TurnView) -> Seq<char> {
    "> **"@ + speaker_name(turn.speaker) + "** ("@ + time_text(turn.start) + "): "@ + trimmed(
        turn.text,
    ) + "\n\n"@
}

/// The paragraphs of the turns, in order.
pub open spec fn turns_text(turns: Seq<TurnView>) -> Seq<char>
    decreases turns.len(),
{
    if turns.len() == 0 {
        Seq::empty()
    } else {
        turns_text(turns.drop_last()) + turn_text(turns.last())
    }
}

/// The title that opens the narrative document.
pub open spec fn title_text(date: Seq<char>) -> Seq<char> {
    "# Transcript \u{2014} "@ + date + "\n\n"@
}

/// The heading of one chunk: when it was captured, when it was done, and
/// how long its audio is.
pub open spec fn heading_text(result: ChunkResultView) -> Seq<char> {
    "## "@ + replaced(result.timestamp_start, '-', ':') + " \u{2014} "@ + replaced(
        result.timestamp_end,
        '-',
        ':',
    ) + " ("@ + time_text(result.duration) + ")\n\n"@
}

/// The block of one chunk: heading, turns, and a closing rule.
pub open spec fn block_text(result: ChunkResultView) -> Seq<char> {
    heading_text(result) + turns_text(turns_of(result.segments)) + "---\n\n"@
}

/// What is appended to the narrative document for one chunk: the chunk's
/// block, preceded by the title if the document is new or empty.
pub open spec fn entry_text(is_new: bool, date: Seq<char>, result: ChunkResultView) -> Seq<char> {
    if is_new {
        title_text(date) + block_text(result)
    } else {
        block_text(result)
    }
}

/// The narrative document after the entry of one more chunk.
pub open spec fn appended(document: Seq<char>, date: Seq<char>, result: ChunkResultView) -> Seq<
    char,
> {
    document + entry_text(document.len() == 0, date, result)
}

/// Appends the paragraph of one turn.
fn push_turn(out: &mut String, turn: &Turn)
    ensures
        final(out)@ == old(out)@ + turn_text(turn@),
{
    out.append("> **");
    let as_you = you();
    let as_other = other();
    if turn.speaker == as_you {
        out.append("You");
    } else if turn.speaker == as_other {
        out.append("Other");
    } else {
        out.append(turn.speaker.as_str());
    }
    out.append("** (");
    let time = format_time(turn.start);
    out.append(time.as_str());
    out.append("): ");
    let text = trim(turn.text.as_str());
    out.append(text.as_str());
    out.append("\n\n");
    assert(out@ =~= old(out)@ + turn_text(turn@));
}

/// Renders what is appended to the narrative document for one chunk.
/// `is_new` tells whether the document is missing or empty, in which case
/// the entry opens with the title for `date`.
pub fn markdown_entry(is_new: bool, date: &str, result: &ChunkResult) -> (entry: String)
    ensures
        entry@ == entry_text(is_new, date@, result@),
{
    let mut out = String::new();
    if is_new {
        out.append("# Transcript \u{2014} ");
        out.append(date);
        out.append("\n\n");
    }
    let ghost title = out@;
    out.append("## ");
    let start = format_timestamp(result.timestamp_start.as_str());
    out.append(start.as_str());
    out.append(" \u{2014} ");
    let end = format_timestamp(result.timestamp_end.as_str());
    out.append(end.as_str());
    out.append(" (");
    let length = format_time(result.duration);
    out.append(length.as_str());
    out.append(")\n\n");
    assert(out@ =~= title + heading_text(result@));
    let turns = gather_turns(&result.segments);
    let ghost all = turn_views(turns@);
    let ghost head = out@;
    let mut i: usize = 0;
    while i < turns.len()
        invariant
            i <= turns.len(),
            all == turn_views(turns@),
            out@ == head + turns_text(all.take(i as int)),
        decreases turns.len() - i,
    {
        proof {
            assert(all.take(i + 1).drop_last() =~= all.take(i as int));
            assert(all.take(i + 1).last() == turns@[i as int]@);
        }
        push_turn(&mut out, &turns[i]);
        assert(out@ =~= head + turns_text(all.take(i + 1)));
        i += 1;
    }
    assert(all.take(all.len() as int) =~= all);
    out.append("---\n\n");
    assert(out@ =~= entry_text(is_new, date@, result@));
    out
}

/// Appends the entry of one chunk to the narrative document, held as a
/// string. The title is written if and only if the document is empty.
pub fn append_markdown(document: &mut String, date: &str, result: &ChunkResult)
    ensures
        final(document)@ == appended(old(document)@, date@, result@),
{
    let is_new = document.as_str().is_empty();
    let entry = markdown_entry(is_new, date, result);
    document.append(entry.as_str());
}

/// The title is written exactly once per document: the first entry of an
/// empty document opens with it, and since an entry is never empty, no later
/// entry can.
pub proof fn lemma_title_once(
    document: Seq<char>,
    date: Seq<char>,
    result: ChunkResultView,
    next_date: Seq<char>,
    next_result: ChunkResultView,
)
    ensures
        appended(Seq::empty(), date, result) == title_text(date) + block_text(result),
        document.len() > 0 ==> appended(document, date, result) == document + block_text(result),
        appended(document, date, result).len() > 0,
        appended(appended(document, date, result), next_date, next_result) == appended(
            document,
            date,
            result,
        ) + block_text(next_result),
{
    reveal_strlit("---\n\n");
    assert(block_text(result).len() >= 5);
    assert(Seq::<char>::empty() + (title_text(date) + block_text(result)) =~= title_text(date)
        + block_text(result));
}

/// The name of the file that holds one chunk's result.
pub fn json_file_name(timestamp: &str) -> (name: String)
    ensures
        name@ == timestamp@ + ".json"@,
{
    let mut name = String::new();
    name.append(timestamp);
    name.append(".json");
    assert(name@ =~= timestamp@ + ".json"@);
    name
}

} // verus!

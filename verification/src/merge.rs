//! The merge of the two sources' transcripts into one sequence of
//! speaker-labelled segments, ordered by start time.

use vstd::prelude::*;
use crate::bleed::{dedup_bleed, deduped, within, words_within};
use crate::transcribe::{segment_views, word_views, Transcript, TranscriptView, Word, WordView};

verus! {

/// A segment attributed to one speaker, with the words of the source
/// transcript that fall inside it.
#[derive(Debug, PartialEq, Eq)]
pub struct SpeakerSegment {
    pub speaker: String,
    pub start: i64,
    pub end: i64,
    pub text: String,
    pub words: Vec<Word>,
}

/// The mathematical content of a [`SpeakerSegment`].
pub struct SpeakerSegmentView {
    pub speaker: Seq<char>,
    pub start: int,
    pub end: int,
    pub text: Seq<char>,
    pub words: Seq<WordView>,
}

impl View for SpeakerSegment {
    type V = SpeakerSegmentView;

    open spec fn view(&self) -> SpeakerSegmentView {
        SpeakerSegmentView {
            speaker: self.speaker@,
            start: self.start as int,
            end: self.end as int,
            text: self.text@,
            words: word_views(self.words@),
        }
    }
}

/// The views of a sequence of speaker segments.
pub open spec fn speaker_views(segments: Seq<SpeakerSegment>) -> Seq<SpeakerSegmentView> {
    Seq::new(segments.len(), |i: int| segments[i]@)
}

/// Both sources' segments in one sequence.
#[derive(Debug, PartialEq, Eq)]
pub struct MergedTranscript {
    pub segments: Vec<SpeakerSegment>,
    pub duration: i64,
}

/// The mathematical content of a [`MergedTranscript`].
pub struct MergedTranscriptView {
    pub segments: Seq<SpeakerSegmentView>,
    pub duration: int,
}

impl View for MergedTranscript {
    type V = MergedTranscriptView;

    open spec fn view(&self) -> MergedTranscriptView {
        MergedTranscriptView {
            segments: speaker_views(self.segments@),
            duration: self.duration as int,
        }
    }
}

/// The label of what the microphone recorded: `you`.
pub open spec fn label_you() -> Seq<char> {
    seq!['y', 'o', 'u']
}

/// The label of what the system played: `other`.
pub open spec fn label_other() -> Seq<char> {
    seq!['o', 't', 'h', 'e', 'r']
}

/// One segment of a transcript, attributed to `speaker`, with the
/// transcript's words that lie inside it.
pub open spec fn attributed(t: TranscriptView, i: int, speaker: Seq<char>) -> SpeakerSegmentView {
    SpeakerSegmentView {
        speaker,
        start: t.segments[i].start,
        end: t.segments[i].end,
        text: t.segments[i].text,
        words: words_within(t.words, t.segments[i].start, t.segments[i].end),
    }
}

/// All segments of a transcript, attributed to `speaker`.
pub open spec fn speaker_segments(t: TranscriptView, speaker: Seq<char>) -> Seq<
    SpeakerSegmentView,
> {
    Seq::new(t.segments.len(), |i: int| attributed(t, i, speaker))
}

/// `sorted` with `x` put in front of the first segment that starts at or
/// after `x.start`, or at the end if there is none.
pub open spec fn placed(sorted: Seq<SpeakerSegmentView>, x: SpeakerSegmentView) -> Seq<
    SpeakerSegmentView,
>
    decreases sorted.len(),
{
    if sorted.len() == 0 || sorted[0].start >= x.start {
        seq![x] + sorted
    } else {
        seq![sorted[0]] + placed(sorted.drop_first(), x)
    }
}

/// The segments in order of start time; segments that start together keep
/// the order they came in.
pub open spec fn sorted_by_start(segments: Seq<SpeakerSegmentView>) -> Seq<SpeakerSegmentView>
    decreases segments.len(),
{
    if segments.len() == 0 {
        segments
    } else {
        placed(sorted_by_start(segments.drop_first()), segments[0])
    }
}

/// Whether start times never decrease along the sequence.
pub open spec fn ordered(segments: Seq<SpeakerSegmentView>) -> bool {
    forall|i: int, j: int|
        0 <= i <= j < segments.len() ==> (#[trigger] segments[i]).start <= (
        #[trigger] segments[j]).start
}

/// Whether every word attached to a segment lies inside that segment.
pub open spec fn words_attributed(segment: SpeakerSegmentView) -> bool {
    forall|j: int|
        0 <= j < segment.words.len() ==> within(
            #[trigger] segment.words[j],
            segment.start,
            segment.end,
        )
}

/// The segments that start exactly at `t`, in order.
pub open spec fn starting_at(segments: Seq<SpeakerSegmentView>, t: int) -> Seq<
    SpeakerSegmentView,
>
    decreases segments.len(),
{
    if segments.len() == 0 {
        segments
    } else if segments[0].start == t {
        seq![segments[0]] + starting_at(segments.drop_first(), t)
    } else {
        starting_at(segments.drop_first(), t)
    }
}

/// The duration of a transcript that may be missing.
pub open spec fn duration_or_zero(t: Option<TranscriptView>) -> int {
    match t {
        Some(t) => t.duration,
        None => 0,
    }
}

/// The segments of a transcript that may be missing.
pub open spec fn segments_or_none(t: Option<TranscriptView>, speaker: Seq<char>) -> Seq<
    SpeakerSegmentView,
> {
    match t {
        Some(t) => speaker_segments(t, speaker),
        None => Seq::empty(),
    }
}

/// The microphone transcript as it enters the merge: cleaned of bleed where
/// there is a system transcript to compare it with.
pub open spec fn cleaned_mic(system: Option<TranscriptView>, mic: Option<TranscriptView>) -> Option<
    TranscriptView,
> {
    match (system, mic) {
        (Some(s), Some(m)) => Some(deduped(s, m)),
        _ => mic,
    }
}

/// The merge of two transcripts, each of which may be missing.
pub open spec fn merged(system: Option<TranscriptView>, mic: Option<TranscriptView>) -> MergedTranscriptView {
    let longest = if duration_or_zero(system) >= duration_or_zero(mic) {
        duration_or_zero(system)
    } else {
        duration_or_zero(mic)
    };
    MergedTranscriptView {
        segments: sorted_by_start(
            segments_or_none(system, label_other()) + segments_or_none(
                cleaned_mic(system, mic),
                label_you(),
            ),
        ),
        duration: longest,
    }
}

/// The view of a transcript that may be missing.
pub open spec fn view_of(t: Option<Transcript>) -> Option<TranscriptView> {
    match t {
        Some(t) => Some(t@),
        None => None,
    }
}

/// Placing a segment keeps an ordered sequence ordered.
proof fn lemma_placed_ordered(sorted: Seq<SpeakerSegmentView>, x: SpeakerSegmentView)
    requires
        ordered(sorted),
    ensures
        ordered(placed(sorted, x)),
        placed(sorted, x).len() == sorted.len() + 1,
        forall|i: int|
            0 <= i < placed(sorted, x).len() ==> (#[trigger] placed(sorted, x)[i]) == x
                || sorted.contains(placed(sorted, x)[i]),
    decreases sorted.len(),
{
    let out = placed(sorted, x);
    if sorted.len() == 0 || sorted[0].start >= x.start {
        assert forall|i: int, j: int| 0 <= i <= j < out.len() implies (#[trigger] out[i]).start
            <= (#[trigger] out[j]).start by {
            if i > 0 {
                assert(out[i] == sorted[i - 1]);
                assert(out[j] == sorted[j - 1]);
            } else if j > 0 {
                assert(out[j] == sorted[j - 1]);
                assert(sorted[0].start <= sorted[j - 1].start);
            }
        }
        assert forall|i: int| 0 <= i < out.len() implies (#[trigger] out[i]) == x
            || sorted.contains(out[i]) by {
            if i > 0 {
                assert(out[i] == sorted[i - 1]);
            }
        }
    } else {
        let rest = sorted.drop_first();
        assert(ordered(rest)) by {
            assert forall|i: int, j: int| 0 <= i <= j < rest.len() implies (
            #[trigger] rest[i]).start <= (#[trigger] rest[j]).start by {
                assert(rest[i] == sorted[i + 1]);
                assert(rest[j] == sorted[j + 1]);
            }
        }
        lemma_placed_ordered(rest, x);
        let tail = placed(rest, x);
        assert forall|i: int| 0 <= i < out.len() implies (#[trigger] out[i]) == x
            || sorted.contains(out[i]) by {
            if i > 0 {
                assert(out[i] == tail[i - 1]);
                if tail[i - 1] != x {
                    assert(rest.contains(tail[i - 1]));
                    let k = choose|k: int| 0 <= k < rest.len() && rest[k] == tail[i - 1];
                    assert(sorted[k + 1] == tail[i - 1]);
                }
            } else {
                assert(out[0] == sorted[0]);
            }
        }
        assert forall|i: int, j: int| 0 <= i <= j < out.len() implies (#[trigger] out[i]).start
            <= (#[trigger] out[j]).start by {
            if i > 0 {
                assert(out[i] == tail[i - 1]);
                assert(out[j] == tail[j - 1]);
            } else if j > 0 {
                assert(out[j] == tail[j - 1]);
                if tail[j - 1] != x {
                    assert(rest.contains(tail[j - 1]));
                    let k = choose|k: int| 0 <= k < rest.len() && rest[k] == tail[j - 1];
                    assert(sorted[k + 1] == tail[j - 1]);
                    assert(sorted[0].start <= sorted[k + 1].start);
                }
            }
        }
    }
}

/// Merged segments never go back in time: start times are nondecreasing
/// along any sorted sequence, and sorting neither adds nor loses a segment.
pub proof fn lemma_sorted_is_ordered(segments: Seq<SpeakerSegmentView>)
    ensures
        ordered(sorted_by_start(segments)),
        sorted_by_start(segments).len() == segments.len(),
        forall|i: int|
            0 <= i < segments.len() ==> segments.contains(
                #[trigger] sorted_by_start(segments)[i],
            ),
    decreases segments.len(),
{
    if segments.len() > 0 {
        let rest = segments.drop_first();
        lemma_sorted_is_ordered(rest);
        lemma_placed_ordered(sorted_by_start(rest), segments[0]);
        let out = sorted_by_start(segments);
        assert forall|i: int| 0 <= i < segments.len() implies segments.contains(
            #[trigger] out[i],
        ) by {
            if out[i] == segments[0] {
            } else {
                assert(sorted_by_start(rest).contains(out[i]));
                let k = choose|k: int|
                    0 <= k < rest.len() && sorted_by_start(rest)[k] == out[i];
                assert(rest.contains(sorted_by_start(rest)[k]));
                let m = choose|m: int| 0 <= m < rest.len() && rest[m] == out[i];
                assert(segments[m + 1] == out[i]);
            }
        }
    }
}

/// Every word that `words_within` selects lies inside the span.
pub proof fn lemma_words_within(words: Seq<WordView>, start: int, end: int)
    ensures
        forall|j: int|
            0 <= j < words_within(words, start, end).len() ==> within(
                #[trigger] words_within(words, start, end)[j],
                start,
                end,
            ),
    decreases words.len(),
{
    if words.len() > 0 {
        lemma_words_within(words.drop_last(), start, end);
        let out = words_within(words, start, end);
        let rest = words_within(words.drop_last(), start, end);
        assert forall|j: int| 0 <= j < out.len() implies within(#[trigger] out[j], start, end) by {
            if j < rest.len() {
                assert(out[j] == rest[j]);
            }
        }
    }
}

/// Copies of the words whose spans lie inside `start..=end`.
fn words_inside(words: &Vec<Word>, start: i64, end: i64) -> (out: Vec<Word>)
    ensures
        word_views(out@) == words_within(word_views(words@), start as int, end as int),
{
    let ghost all = word_views(words@);
    let mut out: Vec<Word> = Vec::new();
    let mut i: usize = 0;
    while i < words.len()
        invariant
            i <= words.len(),
            all == word_views(words@),
            word_views(out@) == words_within(all.take(i as int), start as int, end as int),
        decreases words.len() - i,
    {
        let word = &words[i];
        proof {
            assert(all.take(i + 1).drop_last() =~= all.take(i as int));
            assert(all.take(i + 1).last() == word@);
        }
        if word.start >= start && word.end <= end {
            let ghost before = out@;
            let copy = word.clone();
            out.push(copy);
            assert(word_views(out@) =~= word_views(before).push(word@));
        }
        i += 1;
    }
    assert(all.take(all.len() as int) =~= all);
    out
}

/// The label `you` as a string.
pub(crate) fn you() -> (label: String)
    ensures
        label@ == label_you(),
{
    proof {
        reveal_strlit("you");
    }
    let label = "you".to_string();
    assert(label@ =~= label_you());
    label
}

/// The label `other` as a string.
pub(crate) fn other() -> (label: String)
    ensures
        label@ == label_other(),
{
    proof {
        reveal_strlit("other");
    }
    let label = "other".to_string();
    assert(label@ =~= label_other());
    label
}

/// Turns the segments of one transcript into speaker segments.
fn to_speaker_segments(t: Transcript, from_mic: bool) -> (out: Vec<SpeakerSegment>)
    ensures
        speaker_views(out@) == speaker_segments(
            t@,
            if from_mic {
                label_you()
            } else {
                label_other()
            },
        ),
{
    let ghost whole = t@;
    let ghost speaker = if from_mic {
        label_you()
    } else {
        label_other()
    };
    let Transcript { text: _, segments, words, duration: _ } = t;
    let ghost source = segments@;
    let mut out: Vec<SpeakerSegment> = Vec::new();
    for segment in it: segments
        invariant
            it.seq() == source,
            whole.segments == segment_views(source),
            whole.words == word_views(words@),
            speaker == if from_mic {
                label_you()
            } else {
                label_other()
            },
            out@.len() == it.index(),
            forall|k: int|
                0 <= k < it.index() ==> (#[trigger] out@[k])@ == attributed(whole, k, speaker),
    {
        let inside = words_inside(&words, segment.start, segment.end);
        let label = if from_mic {
            you()
        } else {
            other()
        };
        out.push(
            SpeakerSegment {
                speaker: label,
                start: segment.start,
                end: segment.end,
                text: segment.text,
                words: inside,
            },
        );
    }
    assert(speaker_views(out@) =~= speaker_segments(whole, speaker));
    out
}

/// Where `placed` puts a segment: in front of position `at`, when all
/// segments before `at` start earlier and the one at `at` does not.
proof fn lemma_placed_at(sorted: Seq<SpeakerSegmentView>, x: SpeakerSegmentView, at: int)
    requires
        0 <= at <= sorted.len(),
        forall|k: int| 0 <= k < at ==> (#[trigger] sorted[k]).start < x.start,
        at < sorted.len() ==> sorted[at].start >= x.start,
    ensures
        placed(sorted, x) == sorted.insert(at, x),
    decreases at,
{
    if at == 0 {
        assert(sorted.insert(0, x) =~= seq![x] + sorted);
    } else {
        let rest = sorted.drop_first();
        assert forall|k: int| 0 <= k < at - 1 implies (#[trigger] rest[k]).start < x.start by {
            assert(rest[k] == sorted[k + 1]);
        }
        lemma_placed_at(rest, x, at - 1);
        assert(sorted.insert(at, x) =~= seq![sorted[0]] + rest.insert(at - 1, x));
    }
}

/// Sorts by start time. Segments that start together keep their order.
fn sort_by_start(segments: Vec<SpeakerSegment>) -> (out: Vec<SpeakerSegment>)
    ensures
        speaker_views(out@) == sorted_by_start(speaker_views(segments@)),
{
    let ghost all = speaker_views(segments@);
    let mut rest = segments;
    let mut out: Vec<SpeakerSegment> = Vec::new();
    // Taken from the back, each segment goes in front of every segment
    // already placed that does not start before it.
    while rest.len() > 0
        invariant
            rest@.len() <= all.len(),
            speaker_views(rest@) == all.take(rest@.len() as int),
            speaker_views(out@) == sorted_by_start(all.skip(rest@.len() as int)),
        decreases rest.len(),
    {
        let ghost before_rest = rest@;
        let ghost n = rest@.len() as int;
        let next = rest.pop().unwrap();
        proof {
            assert(next@ == all[n - 1]) by {
                assert(speaker_views(before_rest)[n - 1] == all.take(n)[n - 1]);
            }
            assert(speaker_views(rest@) =~= all.take(n - 1));
            assert(all.skip(n - 1).drop_first() =~= all.skip(n));
        }
        let mut at: usize = 0;
        while at < out.len() && out[at].start < next.start
            invariant
                at <= out.len(),
                forall|k: int| 0 <= k < at ==> (#[trigger] speaker_views(out@)[k]).start < next@.start,
            decreases out.len() - at,
        {
            at += 1;
        }
        proof {
            lemma_placed_at(speaker_views(out@), next@, at as int);
        }
        let ghost before = out@;
        out.insert(at, next);
        assert(speaker_views(out@) =~= speaker_views(before).insert(at as int, next@));
    }
    assert(all.skip(0) =~= all);
    out
}

/// Merges the transcripts of the two sources of one chunk. Either may be
/// missing (its channel was silent).
///
/// Where both are present, the microphone transcript is first cleaned of
/// bleed. Each segment is labelled `other` (system) or `you` (microphone) and
/// carries the words of its transcript that lie inside it. The segments are
/// ordered by start time, system before microphone where they start together,
/// and the duration is the longer of the two, a missing one counting as zero.
pub fn merge_transcripts(system: Option<Transcript>, mic: Option<Transcript>) -> (result:
    MergedTranscript)
    ensures
        result@ == merged(view_of(system), view_of(mic)),
        ordered(result@.segments),
        forall|i: int|
            0 <= i < result@.segments.len() ==> words_attributed(#[trigger] result@.segments[i]),
{
    let system_duration: i64 = match &system {
        Some(t) => t.duration,
        None => 0,
    };
    let mic_duration: i64 = match &mic {
        Some(t) => t.duration,
        None => 0,
    };
    let duration = if system_duration >= mic_duration {
        system_duration
    } else {
        mic_duration
    };
    let ghost raw_mic = view_of(mic);
    let cleaned = match mic {
        Some(mut m) => {
            match &system {
                Some(s) => {
                    dedup_bleed(s, &mut m);
                },
                None => {},
            }
            Some(m)
        },
        None => None,
    };
    let ghost clean = view_of(cleaned);
    assert(clean == cleaned_mic(view_of(system), raw_mic));
    let mut segments: Vec<SpeakerSegment> = match system {
        Some(s) => to_speaker_segments(s, false),
        None => Vec::new(),
    };
    assert(speaker_views(segments@) =~= segments_or_none(view_of(system), label_other()));
    match cleaned {
        Some(m) => {
            let ghost before = segments@;
            let mut mine = to_speaker_segments(m, true);
            segments.append(&mut mine);
            assert(speaker_views(segments@) =~= speaker_views(before) + segments_or_none(
                clean,
                label_you(),
            ));
        },
        None => {
            assert(speaker_views(segments@) =~= speaker_views(segments@) + segments_or_none(
                clean,
                label_you(),
            ));
        },
    }
    let ghost joined = speaker_views(segments@);
    let sorted = sort_by_start(segments);
    proof {
        lemma_sorted_is_ordered(joined);
        lemma_merged_words_attributed(view_of(system), clean);
    }
    MergedTranscript { segments: sorted, duration }
}

/// Word attribution: in every merged segment, each attached word starts no
/// earlier and ends no later than the segment.
pub proof fn lemma_merged_words_attributed(
    system: Option<TranscriptView>,
    mic: Option<TranscriptView>,
)
    ensures
        forall|i: int|
            0 <= i < sorted_by_start(
                segments_or_none(system, label_other()) + segments_or_none(mic, label_you()),
            ).len() ==> words_attributed(
                #[trigger] sorted_by_start(
                    segments_or_none(system, label_other()) + segments_or_none(mic, label_you()),
                )[i],
            ),
{
    let first = segments_or_none(system, label_other());
    let second = segments_or_none(mic, label_you());
    let joined = first + second;
    let out = sorted_by_start(joined);
    lemma_sorted_is_ordered(joined);
    assert forall|i: int| 0 <= i < out.len() implies words_attributed(#[trigger] out[i]) by {
        assert(joined.contains(out[i]));
        let k = choose|k: int| 0 <= k < joined.len() && joined[k] == out[i];
        if k < first.len() {
            let t = system->0;
            lemma_words_within(t.words, t.segments[k].start, t.segments[k].end);
            assert(joined[k] == attributed(t, k, label_other()));
        } else {
            let t = mic->0;
            let m = k - first.len();
            lemma_words_within(t.words, t.segments[m].start, t.segments[m].end);
            assert(joined[k] == attributed(t, m, label_you()));
        }
    }
}

/// Placing a segment puts it in front of the segments that start with it.
proof fn lemma_placed_starting_at(sorted: Seq<SpeakerSegmentView>, x: SpeakerSegmentView, t: int)
    ensures
        starting_at(placed(sorted, x), t) == if x.start == t {
            seq![x] + starting_at(sorted, t)
        } else {
            starting_at(sorted, t)
        },
    decreases sorted.len(),
{
    if sorted.len() == 0 || sorted[0].start >= x.start {
        assert((seq![x] + sorted).drop_first() =~= sorted);
    } else {
        let rest = sorted.drop_first();
        lemma_placed_starting_at(rest, x, t);
        assert((seq![sorted[0]] + placed(rest, x)).drop_first() =~= placed(rest, x));
    }
}

/// Ties keep their order: the segments that start at any one time appear in
/// the sorted sequence exactly as they appeared before sorting.
pub proof fn lemma_sort_keeps_ties(segments: Seq<SpeakerSegmentView>, t: int)
    ensures
        starting_at(sorted_by_start(segments), t) == starting_at(segments, t),
    decreases segments.len(),
{
    if segments.len() > 0 {
        lemma_sort_keeps_ties(segments.drop_first(), t);
        lemma_placed_starting_at(sorted_by_start(segments.drop_first()), segments[0], t);
    }
}

} // verus!

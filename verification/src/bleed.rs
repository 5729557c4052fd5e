//! Bleed removal: the microphone often picks up what the speakers play, so
//! words of the system transcript turn up in the microphone transcript too.
//! Sustained runs of such echoes are removed; short coincidences stay.

use vstd::prelude::*;
use crate::text::{
    alphanumeric,
    chars_of,
    is_alphanumeric,
    lowercase,
    push_char,
    space_joined,
    to_lowercase,
    trim,
    trimmed,
};
use crate::transcribe::{
    segment_views,
    word_views,
    Segment,
    SegmentView,
    Transcript,
    TranscriptView,
    Word,
    WordView,
};

verus! {

/// Two words count as simultaneous when their start times differ by less
/// than this: one second.
pub const TIME_TOLERANCE: i64 = 1_000_000;

/// The shortest run of consecutive echoed words that is treated as bleed.
pub const MIN_RUN: usize = 3;

/// The alphanumeric characters of `s`, in order.
pub open spec fn alphanumerics(s: Seq<char>) -> Seq<char>
    decreases s.len(),
{
    if s.len() == 0 {
        s
    } else if alphanumeric(s.last()) {
        alphanumerics(s.drop_last()).push(s.last())
    } else {
        alphanumerics(s.drop_last())
    }
}

/// The form in which words are compared: trimmed, lower-cased, and reduced
/// to letters and digits.
pub open spec fn normalized(w: Seq<char>) -> Seq<char> {
    alphanumerics(lowercase(trimmed(w)))
}

/// Brings a word into the form in which words are compared.
pub fn normalize_word(w: &str) -> (out: String)
    ensures
        out@ == normalized(w@),
{
    let stripped = trim(w);
    let lower = to_lowercase(stripped.as_str());
    let chars = chars_of(lower.as_str());
    let mut out = String::new();
    let mut i: usize = 0;
    while i < chars.len()
        invariant
            i <= chars.len(),
            out@ == alphanumerics(chars@.take(i as int)),
        decreases chars.len() - i,
    {
        assert(chars@.take(i + 1).drop_last() =~= chars@.take(i as int));
        if is_alphanumeric(chars[i]) {
            push_char(&mut out, chars[i]);
        }
        i += 1;
    }
    assert(chars@.take(chars.len() as int) =~= chars@);
    out
}

/// Whether two start times lie within the tolerance of each other.
pub open spec fn near(a: int, b: int) -> bool {
    -(TIME_TOLERANCE as int) < a - b < TIME_TOLERANCE as int
}

/// Whether microphone word `m` repeats system word `s`: the same word in
/// normalised form, started at nearly the same time.
pub open spec fn echoes(m: WordView, s: WordView) -> bool {
    normalized(s.word) == normalized(m.word) && near(m.start, s.start)
}

/// Whether microphone word `m` repeats some word of the system transcript.
/// A word that normalises to nothing never does.
pub open spec fn is_echo(m: WordView, system: Seq<WordView>) -> bool {
    normalized(m.word).len() > 0 && exists|j: int|
        0 <= j < system.len() && echoes(m, #[trigger] system[j])
}

/// For each microphone word, whether it repeats a system word.
pub open spec fn echo_flags(mic: Seq<WordView>, system: Seq<WordView>) -> Seq<bool> {
    Seq::new(mic.len(), |i: int| is_echo(mic[i], system))
}

/// Whether every flag in `lo..hi` is set.
pub open spec fn all_set(flags: Seq<bool>, lo: int, hi: int) -> bool {
    forall|k: int| lo <= k < hi ==> #[trigger] flags[k]
}

/// Whether position `i` lies in a run of at least `MIN_RUN` consecutive set
/// flags.
pub open spec fn in_bleed_run(flags: Seq<bool>, i: int) -> bool {
    exists|lo: int, hi: int|
        0 <= lo <= i < hi <= flags.len() && hi - lo >= MIN_RUN && #[trigger] all_set(
            flags,
            lo,
            hi,
        )
}

/// For each position, whether it lies in a run that is treated as bleed.
pub open spec fn bleed_marks(flags: Seq<bool>) -> Seq<bool> {
    Seq::new(flags.len(), |i: int| in_bleed_run(flags, i))
}

/// The items whose mark equals `wanted`, in the order they came in.
pub open spec fn picked<T>(items: Seq<T>, marks: Seq<bool>, wanted: bool) -> Seq<T>
    decreases items.len(),
{
    if items.len() == 0 {
        items
    } else if marks[items.len() - 1] == wanted {
        picked(items.drop_last(), marks, wanted).push(items.last())
    } else {
        picked(items.drop_last(), marks, wanted)
    }
}

/// Whether the word's whole span lies inside `start..=end`.
pub open spec fn within(w: WordView, start: int, end: int) -> bool {
    w.start >= start && w.end <= end
}

/// The words whose spans lie inside `start..=end`, in order.
pub open spec fn words_within(words: Seq<WordView>, start: int, end: int) -> Seq<WordView>
    decreases words.len(),
{
    if words.len() == 0 {
        words
    } else if within(words.last(), start, end) {
        words_within(words.drop_last(), start, end).push(words.last())
    } else {
        words_within(words.drop_last(), start, end)
    }
}

/// The total duration of the words whose spans lie inside `start..=end`.
pub open spec fn covered(words: Seq<WordView>, start: int, end: int) -> int
    decreases words.len(),
{
    if words.len() == 0 {
        0
    } else if within(words.last(), start, end) {
        covered(words.drop_last(), start, end) + (words.last().end - words.last().start)
    } else {
        covered(words.drop_last(), start, end)
    }
}

/// Whether the removed words cover more than four fifths of a segment of
/// positive length.
pub open spec fn mostly_bleed(removed: Seq<WordView>, start: int, end: int) -> bool {
    end - start > 0 && 5 * covered(removed, start, end) > 4 * (end - start)
}

/// The trimmed text of each word.
pub open spec fn trimmed_words(words: Seq<WordView>) -> Seq<Seq<char>> {
    Seq::new(words.len(), |i: int| trimmed(words[i].word))
}

/// The text of a segment after bleed removal: nothing if the segment was
/// mostly bleed, else the remaining words inside it, joined by spaces.
pub open spec fn rebuilt_text(
    kept: Seq<WordView>,
    removed: Seq<WordView>,
    start: int,
    end: int,
) -> Seq<char> {
    if mostly_bleed(removed, start, end) {
        Seq::empty()
    } else {
        space_joined(trimmed_words(words_within(kept, start, end)))
    }
}

/// A segment with its text rebuilt.
pub open spec fn rebuilt_segment(
    segment: SegmentView,
    kept: Seq<WordView>,
    removed: Seq<WordView>,
) -> SegmentView {
    SegmentView {
        start: segment.start,
        end: segment.end,
        text: rebuilt_text(kept, removed, segment.start, segment.end),
        words: segment.words,
    }
}

/// The segments with their texts rebuilt, without those left empty.
pub open spec fn rebuilt_segments(
    segments: Seq<SegmentView>,
    kept: Seq<WordView>,
    removed: Seq<WordView>,
) -> Seq<SegmentView>
    decreases segments.len(),
{
    if segments.len() == 0 {
        segments
    } else {
        let rest = rebuilt_segments(segments.drop_last(), kept, removed);
        let last = rebuilt_segment(segments.last(), kept, removed);
        if last.text.len() > 0 {
            rest.push(last)
        } else {
            rest
        }
    }
}

/// The microphone transcript after bleed removal against the system
/// transcript: the words outside bleed runs, and the segments rebuilt from
/// them.
pub open spec fn deduped(system: TranscriptView, mic: TranscriptView) -> TranscriptView {
    let marks = bleed_marks(echo_flags(mic.words, system.words));
    let kept = picked(mic.words, marks, false);
    let removed = picked(mic.words, marks, true);
    TranscriptView {
        text: mic.text,
        segments: rebuilt_segments(mic.segments, kept, removed),
        words: kept,
        duration: mic.duration,
    }
}

fn near_in_time(a: i64, b: i64) -> (r: bool)
    ensures
        r == near(a as int, b as int),
{
    let gap: i128 = a as i128 - b as i128;
    -(TIME_TOLERANCE as i128) < gap && gap < TIME_TOLERANCE as i128
}

/// The normalised form of every word.
fn normalize_all(words: &Vec<Word>) -> (forms: Vec<String>)
    ensures
        forms@.len() == words@.len(),
        forall|j: int| 0 <= j < words@.len() ==> (#[trigger] forms@[j])@ == normalized(words@[j].word@),
{
    let mut forms: Vec<String> = Vec::new();
    let mut j: usize = 0;
    while j < words.len()
        invariant
            j <= words.len(),
            forms@.len() == j,
            forall|k: int| 0 <= k < j ==> (#[trigger] forms@[k])@ == normalized(words@[k].word@),
        decreases words.len() - j,
    {
        forms.push(normalize_word(words[j].word.as_str()));
        j += 1;
    }
    forms
}

/// Flags each microphone word that repeats a system word.
fn find_echoes(system: &Vec<Word>, mic: &Vec<Word>) -> (flags: Vec<bool>)
    ensures
        flags@ == echo_flags(word_views(mic@), word_views(system@)),
{
    let forms = normalize_all(system);
    let ghost sys = word_views(system@);
    let ghost mine = word_views(mic@);
    let mut flags: Vec<bool> = Vec::new();
    let mut i: usize = 0;
    while i < mic.len()
        invariant
            i <= mic.len(),
            sys == word_views(system@),
            mine == word_views(mic@),
            forms@.len() == system@.len(),
            forall|j: int|
                0 <= j < system@.len() ==> (#[trigger] forms@[j])@ == normalized(
                    system@[j].word@,
                ),
            flags@.len() == i,
            forall|k: int| 0 <= k < i ==> #[trigger] flags@[k] == is_echo(mine[k], sys),
        decreases mic.len() - i,
    {
        let form = normalize_word(mic[i].word.as_str());
        let mut found = false;
        if !form.as_str().is_empty() {
            let mut j: usize = 0;
            while j < system.len() && !found
                invariant
                    j <= system.len(),
                    i < mic.len(),
                    sys == word_views(system@),
                    mine == word_views(mic@),
                    form@ == normalized(mic@[i as int].word@),
                    form@.len() > 0,
                    forms@.len() == system@.len(),
                    forall|k: int|
                        0 <= k < system@.len() ==> (#[trigger] forms@[k])@ == normalized(
                            system@[k].word@,
                        ),
                    found ==> is_echo(mine[i as int], sys),
                    !found ==> forall|k: int| 0 <= k < j ==> !echoes(mine[i as int], #[trigger] sys[k]),
                decreases system.len() - j,
            {
                if forms[j] == form && near_in_time(mic[i].start, system[j].start) {
                    assert(echoes(mine[i as int], sys[j as int]));
                    found = true;
                }
                j += 1;
            }
        }
        flags.push(found);
        i += 1;
    }
    assert(flags@ =~= echo_flags(mine, sys));
    flags
}

/// Marks every position that lies in a run of at least `MIN_RUN`
/// consecutive set flags.
fn mark_runs(flags: &Vec<bool>) -> (marks: Vec<bool>)
    ensures
        marks@ == bleed_marks(flags@),
{
    let n = flags.len();
    let mut marks: Vec<bool> = Vec::new();
    let mut i: usize = 0;
    while i < n
        invariant
            i <= n == flags.len(),
            marks@.len() == i,
            forall|k: int| 0 <= k < i ==> #[trigger] marks@[k] == in_bleed_run(flags@, k),
            i == 0 || i == n || !flags@[i - 1] || !flags@[i as int],
        decreases n - i,
    {
        if flags[i] {
            let run_start = i;
            while i < n && flags[i]
                invariant
                    run_start <= i <= n == flags.len(),
                    all_set(flags@, run_start as int, i as int),
                decreases n - i,
            {
                i += 1;
            }
            let long = i - run_start >= MIN_RUN;
            proof {
                // The run run_start..i is maximal: whatever run holds one of
                // its positions lies inside it.
                assert forall|k: int| run_start <= k < i implies in_bleed_run(flags@, k)
                    == long by {
                    if long {
                        assert(all_set(flags@, run_start as int, i as int));
                    }
                    if in_bleed_run(flags@, k) {
                        let (lo, hi) = choose|lo: int, hi: int|
                            0 <= lo <= k < hi <= flags@.len() && hi - lo >= MIN_RUN
                                && #[trigger] all_set(flags@, lo, hi);
                        if lo < run_start {
                            assert(flags@[run_start - 1]);
                        }
                        if hi > i {
                            assert(flags@[i as int]);
                        }
                    }
                }
            }
            let mut j: usize = run_start;
            while j < i
                invariant
                    run_start <= j <= i <= n,
                    marks@.len() == j,
                    forall|k: int| 0 <= k < j ==> #[trigger] marks@[k] == in_bleed_run(flags@, k),
                    forall|k: int| run_start <= k < i ==> in_bleed_run(flags@, k) == long,
                decreases i - j,
            {
                marks.push(long);
                j += 1;
            }
        } else {
            proof {
                if in_bleed_run(flags@, i as int) {
                    let (lo, hi) = choose|lo: int, hi: int|
                        0 <= lo <= i < hi <= flags@.len() && hi - lo >= MIN_RUN
                            && #[trigger] all_set(flags@, lo, hi);
                    assert(flags@[i as int]);
                }
            }
            marks.push(false);
            i += 1;
        }
    }
    assert(marks@ =~= bleed_marks(flags@));
    marks
}

/// Splits the words into those that stay and those that are removed.
fn split_words(words: Vec<Word>, marks: &Vec<bool>) -> (parts: (Vec<Word>, Vec<Word>))
    requires
        marks@.len() == words@.len(),
    ensures
        word_views(parts.0@) == picked(word_views(words@), marks@, false),
        word_views(parts.1@) == picked(word_views(words@), marks@, true),
{
    let ghost all = word_views(words@);
    let ghost source = words@;
    let mut kept: Vec<Word> = Vec::new();
    let mut removed: Vec<Word> = Vec::new();
    let count = words.len();
    let mut at: usize = 0;
    for word in it: words
        invariant
            it.seq() == source,
            at == it.index(),
            count == source.len(),
            all == word_views(source),
            marks@.len() == source.len(),
            word_views(kept@) == picked(all.take(it.index() as int), marks@, false),
            word_views(removed@) == picked(all.take(it.index() as int), marks@, true),
    {
        let ghost i = it.index() as int;
        assert(all.take(i + 1).drop_last() =~= all.take(i));
        assert(all.take(i + 1).last() == word@);
        if marks[at] {
            let ghost before = removed@;
            removed.push(word);
            assert(word_views(removed@) =~= word_views(before).push(word@));
        } else {
            let ghost before = kept@;
            kept.push(word);
            assert(word_views(kept@) =~= word_views(before).push(word@));
        }
        at += 1;
    }
    assert(all.take(all.len() as int) =~= all);
    (kept, removed)
}

/// Whether the removed words cover more than four fifths of the segment
/// `start..=end`.
fn is_mostly_bleed(removed: &Vec<Word>, start: i64, end: i64) -> (r: bool)
    ensures
        r == mostly_bleed(word_views(removed@), start as int, end as int),
{
    if end <= start {
        return false;
    }
    let ghost all = word_views(removed@);
    // Spans may run backwards, so durations are summed by sign.
    let mut gained: u128 = 0;
    let mut lost: u128 = 0;
    let mut k: usize = 0;
    while k < removed.len()
        invariant
            k <= removed.len(),
            all == word_views(removed@),
            gained - lost == covered(all.take(k as int), start as int, end as int),
            gained <= k * 0xffff_ffff_ffff_ffff,
            lost <= k * 0xffff_ffff_ffff_ffff,
        decreases removed.len() - k,
    {
        let word = &removed[k];
        proof {
            assert(all.take(k + 1).drop_last() =~= all.take(k as int));
            assert(all.take(k + 1).last() == word@);
            assert((k + 1) * 0xffff_ffff_ffff_ffff <= 0xffff_ffff_ffff_ffff
                * 0xffff_ffff_ffff_ffff) by (nonlinear_arith)
                requires
                    0 <= k + 1 <= 0xffff_ffff_ffff_ffff,
            ;
            assert((k + 1) * 0xffff_ffff_ffff_ffff == k * 0xffff_ffff_ffff_ffff
                + 0xffff_ffff_ffff_ffff) by (nonlinear_arith);
        }
        if word.start >= start && word.end <= end {
            let span: i128 = word.end as i128 - word.start as i128;
            if span >= 0 {
                gained = gained + span as u128;
            } else {
                lost = lost + (-span) as u128;
            }
        }
        k += 1;
    }
    assert(all.take(all.len() as int) =~= all);
    if gained <= lost {
        false
    } else {
        let cover: u128 = gained - lost;
        let length: u128 = (end as i128 - start as i128) as u128;
        if cover > length {
            true
        } else {
            5 * cover > 4 * length
        }
    }
}

/// Appending one more part to a space-joined text.
proof fn lemma_space_joined_push(parts: Seq<Seq<char>>, part: Seq<char>)
    ensures
        space_joined(parts.push(part)) == if parts.len() == 0 {
            part
        } else {
            space_joined(parts).push(' ') + part
        },
{
    assert(parts.push(part).drop_last() =~= parts);
}

/// The trimmed words inside `start..=end`, joined by single spaces.
fn joined_words(words: &Vec<Word>, start: i64, end: i64) -> (text: String)
    ensures
        text@ == space_joined(
            trimmed_words(words_within(word_views(words@), start as int, end as int)),
        ),
{
    let ghost all = word_views(words@);
    let mut text = String::new();
    let mut any = false;
    let mut i: usize = 0;
    while i < words.len()
        invariant
            i <= words.len(),
            all == word_views(words@),
            any == (words_within(all.take(i as int), start as int, end as int).len() > 0),
            text@ == space_joined(
                trimmed_words(words_within(all.take(i as int), start as int, end as int)),
            ),
        decreases words.len() - i,
    {
        let word = &words[i];
        proof {
            assert(all.take(i + 1).drop_last() =~= all.take(i as int));
            assert(all.take(i + 1).last() == word@);
        }
        if word.start >= start && word.end <= end {
            let ghost before = words_within(all.take(i as int), start as int, end as int);
            let part = trim(word.word.as_str());
            proof {
                assert(trimmed_words(before.push(word@)) =~= trimmed_words(before).push(part@));
                lemma_space_joined_push(trimmed_words(before), part@);
            }
            if any {
                push_char(&mut text, ' ');
            }
            text.append(part.as_str());
            any = true;
        }
        i += 1;
    }
    assert(all.take(all.len() as int) =~= all);
    text
}

/// Rebuilds the text of every segment from the words that stayed, and drops
/// the segments that are left without text.
fn rebuild_segments(segments: Vec<Segment>, kept: &Vec<Word>, removed: &Vec<Word>) -> (out: Vec<
    Segment,
>)
    ensures
        segment_views(out@) == rebuilt_segments(
            segment_views(segments@),
            word_views(kept@),
            word_views(removed@),
        ),
{
    let ghost source = segments@;
    let ghost all = segment_views(segments@);
    let ghost stay = word_views(kept@);
    let ghost gone = word_views(removed@);
    let mut out: Vec<Segment> = Vec::new();
    for segment in it: segments
        invariant
            it.seq() == source,
            all == segment_views(source),
            stay == word_views(kept@),
            gone == word_views(removed@),
            segment_views(out@) == rebuilt_segments(all.take(it.index() as int), stay, gone),
    {
        let ghost i = it.index() as int;
        proof {
            assert(all.take(i + 1).drop_last() =~= all.take(i));
            assert(all.take(i + 1).last() == segment@);
        }
        let text = if is_mostly_bleed(removed, segment.start, segment.end) {
            String::new()
        } else {
            joined_words(kept, segment.start, segment.end)
        };
        if !text.as_str().is_empty() {
            let ghost before = out@;
            let rebuilt = Segment {
                start: segment.start,
                end: segment.end,
                text,
                words: segment.words,
            };
            assert(rebuilt@ == rebuilt_segment(segment@, stay, gone));
            out.push(rebuilt);
            assert(segment_views(out@) =~= segment_views(before).push(rebuilt@));
        }
    }
    assert(all.take(all.len() as int) =~= all);
    out
}

/// Removes from the microphone transcript the words that are bleed from the
/// system output: runs of at least `MIN_RUN` consecutive microphone words,
/// each of which repeats a system word started within `TIME_TOLERANCE` of it.
/// The text of every segment is then rebuilt from the words that stayed, and
/// segments left without text are dropped. Shorter coincidences stay.
pub fn dedup_bleed(system: &Transcript, mic: &mut Transcript)
    ensures
        final(mic)@ == deduped(system@, old(mic)@),
{
    let flags = find_echoes(&system.words, &mic.words);
    let marks = mark_runs(&flags);
    let mut words: Vec<Word> = Vec::new();
    core::mem::swap(&mut words, &mut mic.words);
    let (kept, removed) = split_words(words, &marks);
    let mut segments: Vec<Segment> = Vec::new();
    core::mem::swap(&mut segments, &mut mic.segments);
    let rebuilt = rebuild_segments(segments, &kept, &removed);
    mic.segments = rebuilt;
    mic.words = kept;
}

/// Whether each of the microphone words `lo..hi` repeats a system word.
pub open spec fn echo_run(system: Seq<WordView>, mic: Seq<WordView>, lo: int, hi: int) -> bool {
    forall|k: int| lo <= k < hi ==> is_echo(#[trigger] mic[k], system)
}

/// Run threshold: a word is marked for removal only if it lies in a run of
/// at least `MIN_RUN` consecutive microphone words, each of which repeats a
/// system word.
pub proof fn lemma_removed_only_in_runs(system: Seq<WordView>, mic: Seq<WordView>, i: int)
    requires
        0 <= i < mic.len(),
        bleed_marks(echo_flags(mic, system))[i],
    ensures
        exists|lo: int, hi: int|
            0 <= lo <= i < hi <= mic.len() && hi - lo >= MIN_RUN && #[trigger] echo_run(
                system,
                mic,
                lo,
                hi,
            ),
{
    let flags = echo_flags(mic, system);
    let (lo, hi) = choose|lo: int, hi: int|
        0 <= lo <= i < hi <= flags.len() && hi - lo >= MIN_RUN && #[trigger] all_set(
            flags,
            lo,
            hi,
        );
    assert forall|k: int| lo <= k < hi implies is_echo(#[trigger] mic[k], system) by {
        assert(flags[k]);
    }
    assert(echo_run(system, mic, lo, hi));
}

/// Where no word lies in such a run, every word stays.
pub proof fn lemma_short_runs_stay(words: Seq<WordView>, marks: Seq<bool>)
    requires
        marks.len() >= words.len(),
        forall|i: int| 0 <= i < words.len() ==> !#[trigger] marks[i],
    ensures
        picked(words, marks, false) == words,
        picked(words, marks, true).len() == 0,
    decreases words.len(),
{
    if words.len() > 0 {
        lemma_short_runs_stay(words.drop_last(), marks);
        assert(words.drop_last().push(words.last()) =~= words);
    }
}

/// Fewer than `MIN_RUN` words can hold no run, so a microphone transcript
/// that short always keeps its words.
pub proof fn lemma_few_words_stay(system: TranscriptView, mic: TranscriptView)
    requires
        mic.words.len() < MIN_RUN,
    ensures
        deduped(system, mic).words == mic.words,
{
    let marks = bleed_marks(echo_flags(mic.words, system.words));
    lemma_short_runs_stay(mic.words, marks);
}

/// Time tolerance: a microphone word counts as an echo only if some system
/// word has the same normalised form and starts less than `TIME_TOLERANCE`
/// before or after it.
pub proof fn lemma_echo_is_near(m: WordView, system: Seq<WordView>)
    requires
        is_echo(m, system),
    ensures
        exists|j: int|
            0 <= j < system.len() && normalized((#[trigger] system[j]).word) == normalized(
                m.word,
            ) && -TIME_TOLERANCE < m.start - system[j].start < TIME_TOLERANCE,
{
    let j = choose|j: int| 0 <= j < system.len() && echoes(m, #[trigger] system[j]);
    assert(normalized(system[j].word) == normalized(m.word));
}

} // verus!

//! Transcripts of one chunk as the backend returns them, and the policy for
//! calling the backend.
//!
//! All times are whole microseconds from the start of the chunk's audio.

use vstd::prelude::*;

verus! {

/// One recognised word with its time span.
#[derive(Debug, PartialEq, Eq)]
pub struct Word {
    pub word: String,
    pub start: i64,
    pub end: i64,
}

/// The mathematical content of a [`Word`].
pub struct WordView {
    pub word: Seq<char>,
    pub start: int,
    pub end: int,
}

impl View for Word {
    type V = WordView;

    open spec fn view(&self) -> WordView {
        WordView { word: self.word@, start: self.start as int, end: self.end as int }
    }
}

impl Clone for Word {
    fn clone(&self) -> (copy: Word)
        ensures
            copy == *self,
    {
        Word { word: self.word.clone(), start: self.start, end: self.end }
    }
}

/// The views of a sequence of words.
pub open spec fn word_views(words: Seq<Word>) -> Seq<WordView> {
    Seq::new(words.len(), |i: int| words[i]@)
}

/// One segment of recognised speech, with the words the backend nested in
/// it (if any).
#[derive(Debug, PartialEq, Eq)]
pub struct Segment {
    pub start: i64,
    pub end: i64,
    pub text: String,
    pub words: Vec<Word>,
}

/// The mathematical content of a [`Segment`].
pub struct SegmentView {
    pub start: int,
    pub end: int,
    pub text: Seq<char>,
    pub words: Seq<WordView>,
}

impl View for Segment {
    type V = SegmentView;

    open spec fn view(&self) -> SegmentView {
        SegmentView {
            start: self.start as int,
            end: self.end as int,
            text: self.text@,
            words: word_views(self.words@),
        }
    }
}

/// The views of a sequence of segments.
pub open spec fn segment_views(segments: Seq<Segment>) -> Seq<SegmentView> {
    Seq::new(segments.len(), |i: int| segments[i]@)
}

/// What the backend returned for one audio file.
#[derive(Debug, PartialEq, Eq)]
pub struct Transcript {
    pub text: String,
    pub segments: Vec<Segment>,
    pub words: Vec<Word>,
    pub duration: i64,
}

/// The mathematical content of a [`Transcript`].
pub struct TranscriptView {
    pub text: Seq<char>,
    pub segments: Seq<SegmentView>,
    pub words: Seq<WordView>,
    pub duration: int,
}

impl View for Transcript {
    type V = TranscriptView;

    open spec fn view(&self) -> TranscriptView {
        TranscriptView {
            text: self.text@,
            segments: segment_views(self.segments@),
            words: word_views(self.words@),
            duration: self.duration as int,
        }
    }
}

/// All words nested in the segments, in segment order.
pub open spec fn nested_words(segments: Seq<SegmentView>) -> Seq<WordView>
    decreases segments.len(),
{
    if segments.len() == 0 {
        Seq::empty()
    } else {
        nested_words(segments.drop_last()) + segments.last().words
    }
}

/// A transcript with its words at top level: where the backend nested them
/// in the segments and left the top level empty, they are gathered from the
/// segments.
pub open spec fn flattened(t: TranscriptView) -> TranscriptView {
    if t.words.len() == 0 {
        TranscriptView {
            text: t.text,
            segments: t.segments,
            words: nested_words(t.segments),
            duration: t.duration,
        }
    } else {
        t
    }
}

/// Brings the two shapes in which backends report words into one: if the
/// top-level word list is empty, it is filled from the words nested in the
/// segments.
pub fn flatten_words(transcript: &mut Transcript)
    ensures
        final(transcript)@ == flattened(old(transcript)@),
{
    if transcript.words.len() != 0 {
        return ;
    }
    let ghost all = segment_views(transcript.segments@);
    let mut words: Vec<Word> = Vec::new();
    let mut i: usize = 0;
    while i < transcript.segments.len()
        invariant
            i <= transcript.segments.len(),
            *transcript == *old(transcript),
            all == segment_views(transcript.segments@),
            word_views(words@) == nested_words(all.take(i as int)),
        decreases transcript.segments.len() - i,
    {
        let segment = &transcript.segments[i];
        let ghost before = words@;
        let mut j: usize = 0;
        while j < segment.words.len()
            invariant
                j <= segment.words.len(),
                word_views(words@) == word_views(before) + word_views(segment.words@).take(
                    j as int,
                ),
            decreases segment.words.len() - j,
        {
            let ghost so_far = words@;
            let copy = segment.words[j].clone();
            words.push(copy);
            assert(word_views(words@) =~= word_views(so_far).push(segment.words@[j as int]@));
            assert(word_views(segment.words@).take(j + 1) =~= word_views(segment.words@).take(
                j as int,
            ).push(segment.words@[j as int]@));
            j += 1;
        }
        proof {
            assert(word_views(segment.words@).take(segment.words@.len() as int) =~= word_views(
                segment.words@,
            ));
            assert(all.take(i + 1).drop_last() =~= all.take(i as int));
            assert(all.take(i + 1).last() == segment@);
        }
        i += 1;
    }
    assert(all.take(all.len() as int) =~= all);
    transcript.words = words;
}

/// Where and how to reach the transcription backend.
#[derive(Debug)]
pub struct TranscribeConfig {
    pub api_key: String,
    pub api_url: String,
    pub model: String,
}

impl Clone for TranscribeConfig {
    fn clone(&self) -> (copy: TranscribeConfig)
        ensures
            copy == *self,
    {
        TranscribeConfig {
            api_key: self.api_key.clone(),
            api_url: self.api_url.clone(),
            model: self.model.clone(),
        }
    }
}

impl Default for TranscribeConfig {
    /// The hosted endpoint with its standard model and no key.
    fn default() -> (config: TranscribeConfig)
        ensures
            config.api_key@.len() == 0,
            config.api_url@ == "https://api.openai.com/v1/audio/transcriptions"@,
            config.model@ == "whisper-1"@,
    {
        TranscribeConfig {
            api_key: String::new(),
            api_url: "https://api.openai.com/v1/audio/transcriptions".to_string(),
            model: "whisper-1".to_string(),
        }
    }
}

/// The text fields that accompany the audio file in a request, in order:
/// the model, the response format with per-segment and per-word times, and
/// the two granularities of times asked for.
pub fn request_fields(config: &TranscribeConfig) -> (fields: Vec<(String, String)>)
    ensures
        fields@.len() == 4,
        fields@[0].0@ == "model"@ && fields@[0].1@ == config.model@,
        fields@[1].0@ == "response_format"@ && fields@[1].1@ == "verbose_json"@,
        fields@[2].0@ == "timestamp_granularities[]"@ && fields@[2].1@ == "word"@,
        fields@[3].0@ == "timestamp_granularities[]"@ && fields@[3].1@ == "segment"@,
{
    let mut fields: Vec<(String, String)> = Vec::new();
    fields.push(("model".to_string(), config.model.clone()));
    fields.push(("response_format".to_string(), "verbose_json".to_string()));
    fields.push(("timestamp_granularities[]".to_string(), "word".to_string()));
    fields.push(("timestamp_granularities[]".to_string(), "segment".to_string()));
    fields
}

/// A chunk is sent to the backend at most this many times.
pub const MAX_ATTEMPTS: u32 = 3;

/// What to do once the backend has answered a request.
#[derive(Clone, Copy, Debug, PartialEq, Eq, Structural)]
pub enum NextStep {
    /// The answer is a transcript: read it.
    Accept,
    /// Wait this many seconds, then send the request again.
    Retry { delay_secs: u64 },
    /// Report the status and the body as the error.
    Fail,
}

/// Whether the status reports success (2xx).
pub open spec fn is_success(status: u16) -> bool {
    200 <= status < 300
}

/// Whether the status reports a failure that may pass: too many requests
/// (429) or a server error (5xx).
pub open spec fn is_retryable(status: u16) -> bool {
    status == 429 || 500 <= status < 600
}

/// The pause before the next request once `sent` requests have failed:
/// two seconds after the first, doubled after each further one.
pub open spec fn backoff_secs(sent: nat) -> nat
    decreases sent,
{
    if sent == 0 {
        1
    } else {
        2 * backoff_secs((sent - 1) as nat)
    }
}

/// The step that follows an answer with `status` to request number `sent`
/// (counted from one).
pub open spec fn next_step(status: u16, sent: nat) -> NextStep {
    if is_success(status) {
        NextStep::Accept
    } else if is_retryable(status) && sent < MAX_ATTEMPTS {
        NextStep::Retry { delay_secs: backoff_secs(sent) as u64 }
    } else {
        NextStep::Fail
    }
}

/// Decides what follows an answer with `status`, `sent` being the number of
/// requests sent so far, this one included.
pub fn after_response(status: u16, sent: u32) -> (step: NextStep)
    ensures
        step == next_step(status, sent as nat),
{
    if 200 <= status && status < 300 {
        NextStep::Accept
    } else if (status == 429 || (500 <= status && status < 600)) && sent < MAX_ATTEMPTS {
        let mut delay: u64 = 1;
        let mut doubled: u32 = 0;
        while doubled < sent
            invariant
                doubled <= sent < MAX_ATTEMPTS,
                delay == backoff_secs(doubled as nat),
                delay <= 4,
            decreases sent - doubled,
        {
            assert(backoff_secs(0) == 1 && backoff_secs(1) == 2 && backoff_secs(2) == 4
                && backoff_secs(3) == 8) by {
                reveal_with_fuel(backoff_secs, 5);
            }
            delay = delay * 2;
            doubled += 1;
        }
        NextStep::Retry { delay_secs: delay }
    } else {
        NextStep::Fail
    }
}

/// How many requests one chunk costs when request number `k + 1` is answered
/// with status `answers(k)`, given that `sent` requests were already answered
/// with retryable failures.
pub open spec fn requests_sent(answers: spec_fn(nat) -> u16, sent: nat) -> nat
    decreases MAX_ATTEMPTS - sent,
{
    if sent + 1 < MAX_ATTEMPTS && next_step(answers(sent), sent + 1) is Retry {
        requests_sent(answers, sent + 1)
    } else {
        sent + 1
    }
}

/// The step that ends the exchange described by `answers`.
pub open spec fn last_step(answers: spec_fn(nat) -> u16, sent: nat) -> NextStep
    decreases MAX_ATTEMPTS - sent,
{
    if sent + 1 < MAX_ATTEMPTS && next_step(answers(sent), sent + 1) is Retry {
        last_step(answers, sent + 1)
    } else {
        next_step(answers(sent), sent + 1)
    }
}

/// Retry count: whatever the backend answers, a chunk is sent at most
/// `MAX_ATTEMPTS` times, and the exchange ends with a transcript or a
/// failure, never with another retry.
pub proof fn lemma_attempts_bounded(answers: spec_fn(nat) -> u16)
    ensures
        1 <= requests_sent(answers, 0) <= MAX_ATTEMPTS,
        !(last_step(answers, 0) is Retry),
{
    reveal_with_fuel(requests_sent, 4);
    reveal_with_fuel(last_step, 4);
}

/// Retry count: a backend that answers every request with a retryable
/// failure is sent exactly `MAX_ATTEMPTS` requests, after which the chunk
/// fails.
pub proof fn lemma_always_failing(answers: spec_fn(nat) -> u16)
    requires
        forall|k: nat| is_retryable(#[trigger] answers(k)),
    ensures
        requests_sent(answers, 0) == MAX_ATTEMPTS,
        last_step(answers, 0) == NextStep::Fail,
{
    reveal_with_fuel(requests_sent, 4);
    reveal_with_fuel(last_step, 4);
    assert(is_retryable(answers(0)) && is_retryable(answers(1)) && is_retryable(answers(2)));
}

} // verus!

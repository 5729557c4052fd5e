use scribe::merge::{merge_transcripts, SpeakerSegment};
use scribe::transcribe::{Segment, Transcript, Word};

fn ms(millis: i64) -> i64 {
    millis * 1000
}

fn w(text: &str, start: i64, end: i64) -> Word {
    Word { word: text.to_string(), start: ms(start), end: ms(end) }
}

fn seg(text: &str, start: i64, end: i64) -> Segment {
    Segment { start: ms(start), end: ms(end), text: text.to_string(), words: Vec::new() }
}

fn spoken(speaker: &str, text: &str, start: i64, end: i64, words: Vec<Word>) -> SpeakerSegment {
    SpeakerSegment {
        speaker: speaker.to_string(),
        start: ms(start),
        end: ms(end),
        text: text.to_string(),
        words,
    }
}

fn transcript(duration: i64, segments: Vec<Segment>, words: Vec<Word>) -> Transcript {
    Transcript { text: String::new(), segments, words, duration: ms(duration) }
}

#[test]
fn nothing_merges_to_nothing() {
    let merged = merge_transcripts(None, None);
    assert!(merged.segments.is_empty());
    assert_eq!(merged.duration, 0);
}

#[test]
fn system_alone_is_labelled_other() {
    let system = transcript(
        30_000,
        vec![seg("good morning", 0, 2000), seg("everyone", 2000, 3000)],
        vec![w("good", 0, 500), w("morning", 600, 1900), w("everyone", 2100, 2900)],
    );
    let merged = merge_transcripts(Some(system), None);
    assert_eq!(merged.duration, ms(30_000));
    assert_eq!(
        merged.segments,
        vec![
            spoken("other", "good morning", 0, 2000, vec![w("good", 0, 500), w("morning", 600, 1900)]),
            spoken("other", "everyone", 2000, 3000, vec![w("everyone", 2100, 2900)]),
        ]
    );
    assert!(merged.segments.iter().all(|s| s.speaker != "you"));
}

#[test]
fn mic_alone_is_labelled_you_and_not_cleaned() {
    let mic = transcript(12_000, vec![seg("my own words", 1000, 4000)], vec![w("my", 1000, 1500)]);
    let merged = merge_transcripts(None, Some(mic));
    assert_eq!(merged.duration, ms(12_000));
    // Without a system transcript the segment text is not rebuilt.
    assert_eq!(
        merged.segments,
        vec![spoken("you", "my own words", 1000, 4000, vec![w("my", 1000, 1500)])]
    );
}

#[test]
fn segments_are_ordered_by_start_time() {
    let system = transcript(
        10_000,
        vec![seg("third", 5000, 6000), seg("first", 1000, 2000)],
        vec![w("third", 5000, 6000), w("first", 1000, 2000)],
    );
    let mic = transcript(
        9_000,
        vec![seg("fourth", 7000, 8000), seg("second", 3000, 4000)],
        vec![w("fourth", 7000, 8000), w("second", 3000, 4000)],
    );
    let merged = merge_transcripts(Some(system), Some(mic));
    let order: Vec<&str> = merged.segments.iter().map(|s| s.text.as_str()).collect();
    assert_eq!(order, vec!["first", "second", "third", "fourth"]);
    let speakers: Vec<&str> = merged.segments.iter().map(|s| s.speaker.as_str()).collect();
    assert_eq!(speakers, vec!["other", "you", "other", "you"]);
    for pair in merged.segments.windows(2) {
        assert!(pair[0].start <= pair[1].start);
    }
}

#[test]
fn ties_keep_the_order_they_came_in() {
    let system = transcript(
        5_000,
        vec![seg("s1", 1000, 2000), seg("s2", 1000, 1500), seg("s0", 0, 500)],
        vec![w("x", 9000, 9500)],
    );
    let mic = transcript(
        5_000,
        vec![seg("m1", 1000, 3000), seg("m0", 0, 100)],
        vec![w("m1", 1000, 3000), w("m0", 0, 100)],
    );
    let merged = merge_transcripts(Some(system), Some(mic));
    let order: Vec<&str> = merged.segments.iter().map(|s| s.text.as_str()).collect();
    // System segments come before microphone segments that start with them,
    // and each source's own ties keep their order.
    assert_eq!(order, vec!["s0", "m0", "s1", "s2", "m1"]);
}

#[test]
fn duration_is_the_longer_one() {
    let a = merge_transcripts(
        Some(transcript(30_000, vec![], vec![])),
        Some(transcript(29_500, vec![], vec![])),
    );
    assert_eq!(a.duration, ms(30_000));
    let b = merge_transcripts(
        Some(transcript(1_000, vec![], vec![])),
        Some(transcript(29_500, vec![], vec![])),
    );
    assert_eq!(b.duration, ms(29_500));
}

#[test]
fn duration_of_a_missing_side_counts_as_zero() {
    let negative = Transcript {
        text: String::new(),
        segments: Vec::new(),
        words: Vec::new(),
        duration: -5,
    };
    assert_eq!(merge_transcripts(Some(negative), None).duration, 0);
}

#[test]
fn words_are_attached_only_if_wholly_inside() {
    let system = transcript(
        10_000,
        vec![seg("middle", 2000, 4000)],
        vec![
            w("before", 1000, 1900),
            w("starts-early", 1900, 2500),
            w("on-the-edge", 2000, 4000),
            w("inside", 2500, 3000),
            w("ends-late", 3500, 4100),
            w("after", 4100, 5000),
        ],
    );
    let merged = merge_transcripts(Some(system), None);
    assert_eq!(
        merged.segments[0].words,
        vec![w("on-the-edge", 2000, 4000), w("inside", 2500, 3000)]
    );
    for s in &merged.segments {
        for word in &s.words {
            assert!(s.start <= word.start && word.end <= s.end);
        }
    }
}

#[test]
fn a_word_may_belong_to_overlapping_segments() {
    let system = transcript(
        10_000,
        vec![seg("wide", 0, 5000), seg("narrow", 1000, 2000)],
        vec![w("shared", 1200, 1800)],
    );
    let merged = merge_transcripts(Some(system), None);
    assert_eq!(merged.segments[0].words, vec![w("shared", 1200, 1800)]);
    assert_eq!(merged.segments[1].words, vec![w("shared", 1200, 1800)]);
}

#[test]
fn nested_words_are_not_carried_over() {
    let system = Transcript {
        text: String::new(),
        segments: vec![Segment {
            start: 0,
            end: ms(1000),
            text: "hi".to_string(),
            words: vec![w("hi", 0, 500)],
        }],
        words: Vec::new(),
        duration: ms(1000),
    };
    let merged = merge_transcripts(Some(system), None);
    assert_eq!(merged.segments, vec![spoken("other", "hi", 0, 1000, vec![])]);
}

#[test]
fn bleed_is_removed_from_the_mic_before_merging() {
    let system = transcript(
        30_000,
        vec![seg("hello world today", 1000, 3000)],
        vec![w("hello", 1000, 1400), w("world", 1500, 1900), w("today", 2000, 2400)],
    );
    let mic = transcript(
        30_000,
        vec![seg("hello world today", 1100, 2600), seg("that is great", 5000, 7000)],
        vec![
            w("hello", 1200, 1500),
            w("world", 1600, 1900),
            w("today", 2100, 2500),
            w("that", 5000, 5300),
            w("is", 5400, 5600),
            w("great", 5700, 6500),
        ],
    );
    let merged = merge_transcripts(Some(system), Some(mic));
    assert_eq!(
        merged.segments,
        vec![
            spoken(
                "other",
                "hello world today",
                1000,
                3000,
                vec![w("hello", 1000, 1400), w("world", 1500, 1900), w("today", 2000, 2400)],
            ),
            spoken(
                "you",
                "that is great",
                5000,
                7000,
                vec![w("that", 5000, 5300), w("is", 5400, 5600), w("great", 5700, 6500)],
            ),
        ]
    );
}

#[test]
fn a_silent_mic_leaves_only_the_other_speaker() {
    let words: Vec<Word> = (0..60).map(|i| w("word", i * 500, i * 500 + 400)).collect();
    let segments: Vec<Segment> = (0..6).map(|i| seg("speech", i * 5000, i * 5000 + 5000)).collect();
    let system = transcript(30_000, segments, words);
    let merged = merge_transcripts(Some(system), None);
    assert_eq!(merged.segments.len(), 6);
    assert!(merged.segments.iter().all(|s| s.speaker == "other"));
    assert_eq!(merged.segments.iter().filter(|s| s.speaker == "you").count(), 0);
    assert_eq!(merged.duration, ms(30_000));
}

#[test]
fn many_segments_in_reverse_come_out_sorted() {
    let segments: Vec<Segment> = (0..200).rev().map(|i| seg("s", i * 10, i * 10 + 5)).collect();
    let merged = merge_transcripts(Some(transcript(2_000, segments, vec![])), None);
    let starts: Vec<i64> = merged.segments.iter().map(|s| s.start).collect();
    let expected: Vec<i64> = (0..200).map(|i| ms(i * 10)).collect();
    assert_eq!(starts, expected);
}

use scribe::bleed::dedup_bleed;
use scribe::transcribe::{Segment, Transcript, Word};

fn us(seconds: f64) -> i64 {
    (seconds * 1_000_000.0).round() as i64
}

fn word(text: &str, start: f64) -> Word {
    Word { word: text.to_string(), start: us(start), end: us(start + 0.4) }
}

fn spanned(text: &str, start: f64, end: f64) -> Word {
    Word { word: text.to_string(), start: us(start), end: us(end) }
}

fn segment(text: &str, start: f64, end: f64) -> Segment {
    Segment { start: us(start), end: us(end), text: text.to_string(), words: Vec::new() }
}

fn transcript(words: Vec<Word>, segments: Vec<Segment>) -> Transcript {
    Transcript { text: String::new(), segments, words, duration: us(30.0) }
}

fn texts(t: &Transcript) -> Vec<String> {
    t.words.iter().map(|w| w.word.clone()).collect()
}

#[test]
fn run_of_three_echoes_is_removed() {
    let system = transcript(
        vec![word("hello", 1.0), word("world", 1.5), word("today", 2.0), word("sunny", 2.5)],
        vec![],
    );
    let mut mic = transcript(
        vec![word("hello", 1.2), word("world", 1.6), word("today", 2.1), word("great", 3.0)],
        vec![],
    );
    dedup_bleed(&system, &mut mic);
    assert_eq!(mic.words, vec![word("great", 3.0)]);
}

#[test]
fn short_coincidence_is_kept() {
    let system = transcript(vec![word("yes", 0.5)], vec![]);
    let mut mic = transcript(vec![word("yes", 0.6), word("absolutely", 1.0)], vec![]);
    dedup_bleed(&system, &mut mic);
    assert_eq!(mic.words, vec![word("yes", 0.6), word("absolutely", 1.0)]);
}

#[test]
fn run_of_two_echoes_is_kept() {
    let system = transcript(vec![word("one", 1.0), word("two", 1.5), word("three", 2.0)], vec![]);
    let mut mic = transcript(
        vec![word("one", 1.0), word("two", 1.5), word("tree", 2.0), word("four", 2.5)],
        vec![],
    );
    dedup_bleed(&system, &mut mic);
    assert_eq!(texts(&mic), vec!["one", "two", "tree", "four"]);
}

#[test]
fn a_break_splits_runs() {
    // Two echoes, one word of the user's own, two echoes: no run of three.
    let system = transcript(
        vec![word("a", 1.0), word("b", 1.5), word("c", 2.5), word("d", 3.0)],
        vec![],
    );
    let mut mic = transcript(
        vec![word("a", 1.0), word("b", 1.5), word("mine", 2.0), word("c", 2.5), word("d", 3.0)],
        vec![],
    );
    dedup_bleed(&system, &mut mic);
    assert_eq!(texts(&mic), vec!["a", "b", "mine", "c", "d"]);
}

#[test]
fn every_word_of_a_longer_run_is_removed() {
    let system = transcript(
        vec![word("a", 1.0), word("b", 1.5), word("c", 2.0), word("d", 2.5), word("e", 3.0)],
        vec![],
    );
    let mut mic = transcript(
        vec![
            word("own", 0.2),
            word("a", 1.1),
            word("b", 1.6),
            word("c", 2.1),
            word("d", 2.6),
            word("e", 3.1),
            word("words", 4.0),
        ],
        vec![],
    );
    dedup_bleed(&system, &mut mic);
    assert_eq!(texts(&mic), vec!["own", "words"]);
}

#[test]
fn two_separate_runs_are_both_removed() {
    let system = transcript(
        vec![
            word("a", 1.0),
            word("b", 1.5),
            word("c", 2.0),
            word("x", 5.0),
            word("y", 5.5),
            word("z", 6.0),
        ],
        vec![],
    );
    let mut mic = transcript(
        vec![
            word("a", 1.0),
            word("b", 1.5),
            word("c", 2.0),
            word("between", 3.0),
            word("x", 5.0),
            word("y", 5.5),
            word("z", 6.0),
        ],
        vec![],
    );
    dedup_bleed(&system, &mut mic);
    assert_eq!(texts(&mic), vec!["between"]);
}

#[test]
fn words_one_second_apart_do_not_match() {
    // Exactly at the tolerance: not within it.
    let system = transcript(vec![word("a", 1.0), word("b", 2.0), word("c", 3.0)], vec![]);
    let mut mic = transcript(vec![word("a", 2.0), word("b", 3.0), word("c", 4.0)], vec![]);
    dedup_bleed(&system, &mut mic);
    assert_eq!(texts(&mic), vec!["a", "b", "c"]);
}

#[test]
fn words_just_under_one_second_apart_match() {
    let system = transcript(vec![word("a", 1.0), word("b", 2.0), word("c", 3.0)], vec![]);
    let mut mic = transcript(
        vec![word("a", 1.999_999), word("b", 2.999_999), word("c", 3.999_999)],
        vec![],
    );
    dedup_bleed(&system, &mut mic);
    assert!(mic.words.is_empty());
}

#[test]
fn the_tolerance_holds_in_both_directions() {
    let system = transcript(vec![word("a", 2.0), word("b", 3.0), word("c", 4.0)], vec![]);
    let mut early = transcript(
        vec![word("a", 1.000_001), word("b", 2.000_001), word("c", 3.000_001)],
        vec![],
    );
    dedup_bleed(&system, &mut early);
    assert!(early.words.is_empty());
    let mut too_early =
        transcript(vec![word("a", 1.0), word("b", 2.0), word("c", 3.0)], vec![]);
    dedup_bleed(&system, &mut too_early);
    assert_eq!(too_early.words.len(), 3);
}

#[test]
fn matching_ignores_case_and_punctuation() {
    let system =
        transcript(vec![word("Hello,", 1.0), word("WORLD", 1.5), word("today.", 2.0)], vec![]);
    let mut mic =
        transcript(vec![word(" hello", 1.1), word("world!", 1.6), word("Today", 2.1)], vec![]);
    dedup_bleed(&system, &mut mic);
    assert!(mic.words.is_empty());
}

#[test]
fn words_that_normalise_to_nothing_never_match() {
    let system = transcript(vec![word("...", 1.0), word("?", 1.5), word("!", 2.0)], vec![]);
    let mut mic = transcript(vec![word("...", 1.0), word("?", 1.5), word("!", 2.0)], vec![]);
    dedup_bleed(&system, &mut mic);
    assert_eq!(mic.words.len(), 3);
}

#[test]
fn one_system_word_may_be_echoed_several_times() {
    let system = transcript(vec![word("no", 1.0)], vec![]);
    let mut mic = transcript(vec![word("no", 0.8), word("no", 1.2), word("no", 1.6)], vec![]);
    dedup_bleed(&system, &mut mic);
    assert!(mic.words.is_empty());
}

#[test]
fn without_system_words_every_word_stays() {
    let system = transcript(vec![], vec![segment("spoken", 0.0, 2.0)]);
    let mut mic = transcript(
        vec![word("hello", 1.0)],
        vec![segment("Hello!", 0.0, 2.0), segment("no words here", 5.0, 6.0)],
    );
    dedup_bleed(&system, &mut mic);
    assert_eq!(mic.words, vec![word("hello", 1.0)]);
    // Segments are rebuilt from the words in any case.
    assert_eq!(mic.segments, vec![segment("hello", 0.0, 2.0)]);
}

#[test]
fn without_mic_words_no_segment_has_text_left() {
    let system = transcript(vec![word("hello", 1.0)], vec![]);
    let mut mic = transcript(vec![], vec![segment("no word timings", 0.0, 2.0)]);
    dedup_bleed(&system, &mut mic);
    assert!(mic.words.is_empty());
    assert!(mic.segments.is_empty());
}

#[test]
fn segment_text_is_rebuilt_from_the_words_that_stay() {
    let system = transcript(vec![word("a", 1.0), word("b", 1.5), word("c", 2.0)], vec![]);
    let mut mic = transcript(
        vec![
            spanned("a", 1.0, 1.2),
            spanned("b", 1.5, 1.7),
            spanned("c", 2.0, 2.2),
            spanned(" well ", 5.0, 5.4),
            spanned("then", 5.5, 5.9),
        ],
        vec![segment("a b c well then", 0.0, 10.0)],
    );
    dedup_bleed(&system, &mut mic);
    // Removed words cover 0.6 s of 10 s: the segment stays, with new text.
    assert_eq!(mic.segments, vec![segment("well then", 0.0, 10.0)]);
}

#[test]
fn segment_text_is_rebuilt_even_if_nothing_was_removed() {
    let system = transcript(vec![word("other", 9.0)], vec![]);
    let mut mic = transcript(
        vec![spanned("Hi", 0.5, 0.8), spanned(" there ", 1.0, 1.4)],
        vec![segment("Hi   there!!", 0.0, 2.0)],
    );
    dedup_bleed(&system, &mut mic);
    assert_eq!(mic.segments, vec![segment("Hi there", 0.0, 2.0)]);
}

#[test]
fn segment_that_is_mostly_bleed_is_dropped() {
    let system = transcript(vec![word("a", 1.0), word("b", 2.0), word("c", 3.0)], vec![]);
    let mut mic = transcript(
        vec![
            spanned("a", 1.0, 2.0),
            spanned("b", 2.0, 3.0),
            spanned("c", 3.0, 3.9),
            spanned("hm", 3.9, 4.0),
        ],
        // 2.9 s of 3.0 s are bleed: more than four fifths.
        vec![segment("a b c hm", 1.0, 4.0)],
    );
    dedup_bleed(&system, &mut mic);
    assert_eq!(texts(&mic), vec!["hm"]);
    assert!(mic.segments.is_empty());
}

#[test]
fn segment_at_exactly_four_fifths_bleed_stays() {
    let system = transcript(vec![word("a", 0.0), word("b", 1.0), word("c", 2.0)], vec![]);
    let mut mic = transcript(
        vec![
            spanned("a", 0.0, 1.0),
            spanned("b", 1.0, 2.0),
            spanned("c", 2.0, 4.0),
            spanned("mine", 4.0, 5.0),
        ],
        // 4 s of 5 s: exactly four fifths, which is not more.
        vec![segment("a b c mine", 0.0, 5.0)],
    );
    dedup_bleed(&system, &mut mic);
    assert_eq!(mic.segments, vec![segment("mine", 0.0, 5.0)]);
}

#[test]
fn segment_just_over_four_fifths_bleed_is_dropped() {
    let system = transcript(vec![word("a", 0.0), word("b", 1.0), word("c", 2.0)], vec![]);
    let mut mic = transcript(
        vec![
            spanned("a", 0.0, 1.0),
            spanned("b", 1.0, 2.0),
            spanned("c", 2.0, 4.000_001),
            spanned("mine", 4.5, 5.0),
        ],
        vec![segment("a b c mine", 0.0, 5.0)],
    );
    dedup_bleed(&system, &mut mic);
    assert!(mic.segments.is_empty());
}

#[test]
fn segment_without_remaining_words_is_dropped() {
    let system = transcript(vec![word("x", 20.0)], vec![]);
    let mut mic = transcript(
        vec![spanned("late", 8.0, 8.5)],
        vec![segment("early talk", 0.0, 2.0), segment("late", 7.0, 9.0)],
    );
    dedup_bleed(&system, &mut mic);
    assert_eq!(mic.segments, vec![segment("late", 7.0, 9.0)]);
}

#[test]
fn words_that_cross_the_segment_border_are_not_counted() {
    let system = transcript(vec![word("x", 20.0)], vec![]);
    let mut mic = transcript(
        vec![spanned("in", 1.0, 2.0), spanned("across", 1.5, 2.5), spanned("out", 3.0, 3.5)],
        vec![segment("in across out", 1.0, 2.0)],
    );
    dedup_bleed(&system, &mut mic);
    assert_eq!(mic.segments, vec![segment("in", 1.0, 2.0)]);
}

#[test]
fn segment_of_no_length_is_never_mostly_bleed() {
    let system = transcript(vec![word("a", 1.0), word("b", 1.0), word("c", 1.0)], vec![]);
    let mut mic = transcript(
        vec![
            spanned("a", 1.0, 1.0),
            spanned("b", 1.0, 1.0),
            spanned("c", 1.0, 1.0),
            spanned("d", 1.0, 1.0),
        ],
        vec![segment("a b c d", 1.0, 1.0)],
    );
    dedup_bleed(&system, &mut mic);
    assert_eq!(texts(&mic), vec!["d"]);
    assert_eq!(mic.segments, vec![segment("d", 1.0, 1.0)]);
}

#[test]
fn nested_words_and_other_fields_are_left_alone() {
    let system = transcript(vec![word("a", 1.0), word("b", 1.5), word("c", 2.0)], vec![]);
    let nested = vec![word("a", 1.0), word("b", 1.5)];
    let mut mic = Transcript {
        text: "a b c mine".to_string(),
        segments: vec![Segment {
            start: 0,
            end: us(60.0),
            text: "a b c mine".to_string(),
            words: nested.iter().map(|w| w.clone()).collect(),
        }],
        words: vec![word("a", 1.0), word("b", 1.5), word("c", 2.0), word("mine", 9.0)],
        duration: us(12.5),
    };
    dedup_bleed(&system, &mut mic);
    assert_eq!(mic.text, "a b c mine");
    assert_eq!(mic.duration, us(12.5));
    assert_eq!(mic.segments.len(), 1);
    assert_eq!(mic.segments[0].text, "mine");
    assert_eq!(mic.segments[0].words, nested);
}

#[test]
fn extreme_times_do_not_overflow() {
    let system = transcript(
        vec![
            Word { word: "a".to_string(), start: i64::MIN, end: i64::MAX },
            Word { word: "b".to_string(), start: i64::MIN, end: i64::MAX },
            Word { word: "c".to_string(), start: i64::MIN, end: i64::MAX },
        ],
        vec![],
    );
    let mut mic = transcript(
        vec![
            Word { word: "a".to_string(), start: i64::MIN, end: i64::MAX },
            Word { word: "b".to_string(), start: i64::MIN, end: i64::MAX },
            Word { word: "c".to_string(), start: i64::MIN, end: i64::MAX },
            Word { word: "far".to_string(), start: i64::MAX, end: i64::MIN },
        ],
        vec![Segment {
            start: i64::MIN,
            end: i64::MAX,
            text: "a b c".to_string(),
            words: Vec::new(),
        }],
    );
    dedup_bleed(&system, &mut mic);
    assert_eq!(texts(&mic), vec!["far"]);
    // Three removed words, each as long as the segment: mostly bleed.
    assert!(mic.segments.is_empty());
}

use scribe::transcribe::{
    after_response, flatten_words, request_fields, NextStep, Segment, TranscribeConfig,
    Transcript, Word, MAX_ATTEMPTS,
};

fn w(text: &str, start: i64) -> Word {
    Word { word: text.to_string(), start, end: start + 1 }
}

/// Runs the exchange for one chunk against answers given in advance:
/// the number of requests sent, the pauses taken, and how it ended.
fn exchange(answers: &[u16]) -> (u32, Vec<u64>, NextStep) {
    let mut sent = 0;
    let mut pauses = Vec::new();
    loop {
        let status = answers[sent as usize];
        sent += 1;
        match after_response(status, sent) {
            NextStep::Retry { delay_secs } => pauses.push(delay_secs),
            last => return (sent, pauses, last),
        }
    }
}

#[test]
fn a_backend_that_always_fails_gets_three_requests() {
    let (sent, pauses, last) = exchange(&[500; 10]);
    assert_eq!(sent, 3);
    assert_eq!(sent, MAX_ATTEMPTS);
    assert_eq!(pauses, vec![2, 4]);
    assert_eq!(last, NextStep::Fail);
}

#[test]
fn a_retry_can_succeed() {
    let (sent, pauses, last) = exchange(&[503, 503, 200]);
    assert_eq!(sent, 3);
    assert_eq!(pauses, vec![2, 4]);
    assert_eq!(last, NextStep::Accept);
}

#[test]
fn success_at_once_needs_one_request() {
    let (sent, pauses, last) = exchange(&[200]);
    assert_eq!(sent, 1);
    assert!(pauses.is_empty());
    assert_eq!(last, NextStep::Accept);
}

#[test]
fn too_many_requests_is_retried() {
    assert_eq!(after_response(429, 1), NextStep::Retry { delay_secs: 2 });
    assert_eq!(after_response(429, 2), NextStep::Retry { delay_secs: 4 });
    assert_eq!(after_response(429, 3), NextStep::Fail);
}

#[test]
fn other_failures_are_final() {
    for status in [400, 401, 403, 404, 413, 428, 430, 499, 600, 100, 199, 300, 302, 0, 65535] {
        assert_eq!(after_response(status, 1), NextStep::Fail);
    }
}

#[test]
fn every_server_error_is_retried() {
    for status in 500..600 {
        assert_eq!(after_response(status, 1), NextStep::Retry { delay_secs: 2 });
    }
}

#[test]
fn every_success_status_is_accepted() {
    for status in 200..300 {
        for sent in [1, 2, 3, 4, 1000] {
            assert_eq!(after_response(status, sent), NextStep::Accept);
        }
    }
}

#[test]
fn nothing_is_retried_beyond_the_limit() {
    assert_eq!(after_response(500, 3), NextStep::Fail);
    assert_eq!(after_response(500, 4), NextStep::Fail);
    assert_eq!(after_response(500, u32::MAX), NextStep::Fail);
}

#[test]
fn empty_top_level_words_are_filled_from_the_segments() {
    let mut t = Transcript {
        text: "a b c".to_string(),
        segments: vec![
            Segment { start: 0, end: 10, text: "a b".to_string(), words: vec![w("a", 0), w("b", 5)] },
            Segment { start: 10, end: 20, text: "".to_string(), words: Vec::new() },
            Segment { start: 20, end: 30, text: "c".to_string(), words: vec![w("c", 20)] },
        ],
        words: Vec::new(),
        duration: 30,
    };
    flatten_words(&mut t);
    assert_eq!(t.words, vec![w("a", 0), w("b", 5), w("c", 20)]);
    assert_eq!(t.segments.len(), 3);
    assert_eq!(t.segments[0].words, vec![w("a", 0), w("b", 5)]);
    assert_eq!(t.text, "a b c");
    assert_eq!(t.duration, 30);
}

#[test]
fn top_level_words_are_left_alone() {
    let mut t = Transcript {
        text: String::new(),
        segments: vec![Segment {
            start: 0,
            end: 10,
            text: "x".to_string(),
            words: vec![w("nested", 1)],
        }],
        words: vec![w("top", 0)],
        duration: 10,
    };
    flatten_words(&mut t);
    assert_eq!(t.words, vec![w("top", 0)]);
}

#[test]
fn a_transcript_without_any_words_stays_without() {
    let mut t = Transcript {
        text: String::new(),
        segments: vec![Segment { start: 0, end: 10, text: "x".to_string(), words: Vec::new() }],
        words: Vec::new(),
        duration: 10,
    };
    flatten_words(&mut t);
    assert!(t.words.is_empty());
    assert_eq!(t.segments.len(), 1);
}

#[test]
fn the_default_backend_is_the_hosted_one() {
    let config = TranscribeConfig::default();
    assert_eq!(config.api_key, "");
    assert_eq!(config.api_url, "https://api.openai.com/v1/audio/transcriptions");
    assert_eq!(config.model, "whisper-1");
    let copy = config.clone();
    assert_eq!(copy.api_url, config.api_url);
    assert_eq!(copy.model, config.model);
    assert_eq!(copy.api_key, config.api_key);
}

#[test]
fn words_can_be_copied() {
    let word = w("copy", 7);
    assert_eq!(word.clone(), word);
}

#[test]
fn a_request_asks_for_word_and_segment_times() {
    let config = TranscribeConfig {
        api_key: String::new(),
        api_url: String::new(),
        model: "whisper-1".to_string(),
    };
    let fields: Vec<(String, String)> = request_fields(&config);
    let expected = [
        ("model", "whisper-1"),
        ("response_format", "verbose_json"),
        ("timestamp_granularities[]", "word"),
        ("timestamp_granularities[]", "segment"),
    ];
    assert_eq!(fields.len(), expected.len());
    for (got, want) in fields.iter().zip(expected.iter()) {
        assert_eq!(got.0, want.0);
        assert_eq!(got.1, want.1);
    }
}

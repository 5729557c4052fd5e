//! The command line: which flags there are, what they default to, and what
//! they add up to.
//!
//! Arguments are taken as a list of strings whose first entry is the
//! program's name.

use vstd::prelude::*;
use crate::mixer::MixMode;
use crate::text::{chars_of, string_of};
use crate::transcribe::TranscribeConfig;

verus! {

/// What is captured.
#[derive(Clone, Copy, Debug, PartialEq, Eq, Structural)]
pub enum CaptureMode {
    System,
    Mic,
    Both(MixMode),
}

/// The settings of a capture run.
#[derive(Debug, PartialEq, Eq)]
pub struct Config {
    pub mode: CaptureMode,
    pub chunk_duration: u32,
    pub overlap: u32,
    pub output_dir: String,
    pub output: Option<String>,
    pub no_transcribe: bool,
    pub save_audio: bool,
    pub concurrency: usize,
    pub local_port: Option<u16>,
}

/// The texts of the arguments.
pub open spec fn texts(args: Seq<String>) -> Seq<Seq<char>> {
    Seq::new(args.len(), |i: int| args[i]@)
}

/// Whether `s` begins with `prefix`.
pub open spec fn has_prefix(s: Seq<char>, prefix: Seq<char>) -> bool {
    prefix.len() <= s.len() && s.take(prefix.len() as int) == prefix
}

/// What follows `prefix` in the first argument that begins with it.
pub open spec fn value_of(args: Seq<Seq<char>>, prefix: Seq<char>) -> Option<Seq<char>>
    decreases args.len(),
{
    if args.len() == 0 {
        None
    } else if has_prefix(args[0], prefix) {
        Some(args[0].skip(prefix.len() as int))
    } else {
        value_of(args.drop_first(), prefix)
    }
}

/// Whether `c` is one of the digits `0` to `9`.
pub open spec fn is_digit(c: char) -> bool {
    '0' <= c <= '9'
}

/// The value of a digit.
pub open spec fn digit_value(c: char) -> nat {
    (c as int - '0' as int) as nat
}

/// Whether `s` consists of digits only.
pub open spec fn all_digits(s: Seq<char>) -> bool {
    forall|i: int| 0 <= i < s.len() ==> is_digit(#[trigger] s[i])
}

/// The number that a string of digits denotes.
pub open spec fn digits_value(s: Seq<char>) -> nat
    decreases s.len(),
{
    if s.len() == 0 {
        0
    } else {
        digits_value(s.drop_last()) * 10 + digit_value(s.last())
    }
}

/// The number that `s` denotes, if it is a decimal numeral of a number up
/// to `max`: digits only, at least one, with an optional `+` in front.
pub open spec fn number(s: Seq<char>, max: nat) -> Option<nat> {
    let digits = if s.len() > 0 && s[0] == '+' {
        s.skip(1)
    } else {
        s
    };
    if digits.len() > 0 && all_digits(digits) && digits_value(digits) <= max {
        Some(digits_value(digits))
    } else {
        None
    }
}

/// The number given with `prefix`, or `default` if the flag is missing or
/// its value is no numeral within range. Only the first argument with the
/// prefix counts.
pub open spec fn number_or(args: Seq<Seq<char>>, prefix: Seq<char>, max: nat, default: nat) -> nat {
    match value_of(args, prefix) {
        Some(value) => match number(value, max) {
            Some(n) => n,
            None => default,
        },
        None => default,
    }
}

/// The first argument after the program's name that is not a `--` flag.
pub open spec fn positional(args: Seq<Seq<char>>) -> Option<Seq<char>>
    decreases args.len(),
{
    if args.len() <= 1 {
        None
    } else if !has_prefix(args[1], "--"@) {
        Some(args[1])
    } else {
        positional(args.remove(1))
    }
}

/// More digits never make a numeral smaller.
proof fn lemma_digits_grow(s: Seq<char>, k: int)
    requires
        0 <= k <= s.len(),
    ensures
        digits_value(s.take(k)) <= digits_value(s),
    decreases s.len() - k,
{
    if k < s.len() {
        lemma_digits_grow(s, k + 1);
        assert(s.take(k + 1).drop_last() =~= s.take(k));
    } else {
        assert(s.take(k) =~= s);
    }
}

fn starts_with(s: &Vec<char>, prefix: &Vec<char>) -> (yes: bool)
    ensures
        yes == has_prefix(s@, prefix@),
{
    if prefix.len() > s.len() {
        return false;
    }
    let mut i: usize = 0;
    while i < prefix.len()
        invariant
            i <= prefix.len() <= s.len(),
            forall|k: int| 0 <= k < i ==> s@[k] == prefix@[k],
        decreases prefix.len() - i,
    {
        if s[i] != prefix[i] {
            assert(s@.take(prefix@.len() as int)[i as int] != prefix@[i as int]);
            return false;
        }
        i += 1;
    }
    assert(s@.take(prefix@.len() as int) =~= prefix@);
    true
}

/// Finds what follows `prefix` in the first argument that begins with it.
pub fn option_value(args: &Vec<String>, prefix: &str) -> (value: Option<String>)
    ensures
        value is Some <==> value_of(texts(args@), prefix@) is Some,
        value matches Some(v) ==> Some(v@) == value_of(texts(args@), prefix@),
{
    let wanted = chars_of(prefix);
    let ghost all = texts(args@);
    assert(all.skip(0) =~= all);
    let mut i: usize = 0;
    while i < args.len()
        invariant
            i <= args.len(),
            all == texts(args@),
            wanted@ == prefix@,
            value_of(all, prefix@) == value_of(all.skip(i as int), prefix@),
        decreases args.len() - i,
    {
        let chars = chars_of(args[i].as_str());
        proof {
            assert(all.skip(i as int)[0] == chars@);
            assert(all.skip(i as int).drop_first() =~= all.skip(i + 1));
        }
        if starts_with(&chars, &wanted) {
            let rest = string_of(&chars, wanted.len(), chars.len());
            assert(rest@ =~= chars@.skip(wanted@.len() as int));
            return Some(rest);
        }
        i += 1;
    }
    None
}

/// Whether some argument is exactly `flag`.
pub fn has_flag(args: &Vec<String>, flag: &str) -> (found: bool)
    ensures
        found == texts(args@).contains(flag@),
{
    let wanted = flag.to_string();
    let ghost all = texts(args@);
    let mut i: usize = 0;
    while i < args.len()
        invariant
            i <= args.len(),
            all == texts(args@),
            wanted@ == flag@,
            forall|k: int| 0 <= k < i ==> all[k] != flag@,
        decreases args.len() - i,
    {
        if args[i] == wanted {
            assert(all[i as int] == flag@);
            return true;
        }
        i += 1;
    }
    false
}

/// Reads a decimal numeral of a number up to `max`.
pub fn parse_number(s: &str, max: u64) -> (value: Option<u64>)
    ensures
        value is Some <==> number(s@, max as nat) is Some,
        value matches Some(n) ==> Some(n as nat) == number(s@, max as nat),
{
    let chars = chars_of(s);
    let len = chars.len();
    let from: usize = if len > 0 && chars[0] == '+' {
        1
    } else {
        0
    };
    let ghost digits = chars@.skip(from as int);
    assert(chars@.skip(0) =~= chars@);
    if from == len {
        return None;
    }
    let mut value: u64 = 0;
    let mut i: usize = from;
    while i < len
        invariant
            from <= i <= len == chars@.len(),
            chars@ == s@,
            from == if len > 0 && chars@[0] == '+' {
                1int
            } else {
                0int
            },
            chars@.skip(0) == chars@,
            digits == chars@.skip(from as int),
            all_digits(digits.take(i - from)),
            value == digits_value(digits.take(i - from)),
            value <= max,
        decreases len - i,
    {
        let c = chars[i];
        proof {
            assert(digits[i - from] == c);
            assert(digits.take(i - from + 1).drop_last() =~= digits.take(i - from));
            lemma_digits_grow(digits, i - from + 1);
        }
        if !('0' <= c && c <= '9') {
            assert(!all_digits(digits));
            return None;
        }
        let d: u64 = (c as u32 - '0' as u32) as u64;
        let next: u128 = (value as u128) * 10 + (d as u128);
        assert(digits.take(i - from + 1).last() == c);
        assert(next == digits_value(digits.take(i - from + 1)));
        if next > max as u128 {
            return None;
        }
        value = next as u64;
        assert(all_digits(digits.take(i - from + 1))) by {
            assert forall|k: int| 0 <= k < i - from + 1 implies is_digit(
                #[trigger] digits.take(i - from + 1)[k],
            ) by {
                if k < i - from {
                    assert(digits.take(i - from)[k] == digits[k]);
                }
            }
        }
        i += 1;
    }
    assert(digits.take(len - from) =~= digits);
    Some(value)
}

/// The number given with the flag `prefix`, or `default`.
fn number_option(args: &Vec<String>, prefix: &str, max: u64, default: u64) -> (n: u64)
    requires
        default <= max,
    ensures
        n == number_or(texts(args@), prefix@, max as nat, default as nat),
        n <= max,
{
    match option_value(args, prefix) {
        Some(value) => match parse_number(value.as_str(), max) {
            Some(n) => n,
            None => default,
        },
        None => default,
    }
}

/// Finds the first argument after the program's name that is not a `--`
/// flag.
pub fn first_positional(args: &Vec<String>) -> (found: Option<String>)
    ensures
        found is Some <==> positional(texts(args@)) is Some,
        found matches Some(v) ==> Some(v@) == positional(texts(args@)),
{
    let dashes = chars_of("--");
    let ghost all = texts(args@);
    proof {
        if args.len() >= 1 {
            assert(all.take(1) + all.skip(1) =~= all);
        }
    }
    let mut i: usize = 1;
    while i < args.len()
        invariant
            1 <= i,
            all == texts(args@),
            dashes@ == "--"@,
            i <= args.len() ==> positional(all) == positional(
                all.take(1) + all.skip(i as int),
            ),
            i > args.len() ==> args.len() == 0,
        decreases args.len() - i,
    {
        let chars = chars_of(args[i].as_str());
        let ghost rest = all.take(1) + all.skip(i as int);
        proof {
            assert(rest[1] == chars@);
            assert(rest.remove(1) =~= all.take(1) + all.skip(i + 1));
        }
        if !starts_with(&chars, &dashes) {
            return Some(args[i].clone());
        }
        i += 1;
    }
    proof {
        if args.len() >= 1 {
            assert(all.take(1) + all.skip(args.len() as int) =~= all.take(1));
        } else {
            assert(i > args.len());
        }
    }
    None
}

/// The capture mode that the arguments ask for: `--system` or `--mic` for
/// one source, the first taking precedence; else both sources, in split
/// layout if `--mix-mode=split` is given and in stereo otherwise.
pub open spec fn mode_of(args: Seq<Seq<char>>) -> CaptureMode {
    if args.contains("--system"@) {
        CaptureMode::System
    } else if args.contains("--mic"@) {
        CaptureMode::Mic
    } else if args.contains("--mix-mode=split"@) {
        CaptureMode::Both(MixMode::Split)
    } else {
        CaptureMode::Both(MixMode::Stereo)
    }
}

/// The path of the narrative document that the arguments ask for: the value
/// of `--output=`, else the first positional argument.
pub open spec fn output_of(args: Seq<Seq<char>>) -> Option<Seq<char>> {
    match value_of(args, "--output="@) {
        Some(path) => Some(path),
        None => positional(args),
    }
}

/// Reads the settings of a capture run from the arguments. What is missing
/// or cannot be read takes its default: chunks of 30 seconds, no overlap,
/// two workers, `default_output_dir` for intermediate files.
pub fn parse_config(args: &Vec<String>, default_output_dir: &str) -> (config: Config)
    ensures
        config.mode == mode_of(texts(args@)),
        config.chunk_duration == number_or(texts(args@), "--chunk-duration="@, u32::MAX as nat, 30),
        config.overlap == number_or(texts(args@), "--overlap="@, u32::MAX as nat, 0),
        config.output_dir@ == match value_of(texts(args@), "--output-dir="@) {
            Some(dir) => dir,
            None => default_output_dir@,
        },
        match config.output {
            Some(path) => Some(path@) == output_of(texts(args@)),
            None => output_of(texts(args@)) is None,
        },
        config.no_transcribe == texts(args@).contains("--no-transcribe"@),
        config.save_audio == texts(args@).contains("--save-audio"@),
        config.concurrency == number_or(texts(args@), "--concurrency="@, usize::MAX as nat, 2),
        match config.local_port {
            Some(port) => value_of(texts(args@), "--local-port="@) matches Some(v) && number(
                v,
                u16::MAX as nat,
            ) == Some(port as nat),
            None => match value_of(texts(args@), "--local-port="@) {
                Some(v) => number(v, u16::MAX as nat) is None,
                None => true,
            },
        },
{
    let mode = if has_flag(args, "--system") {
        CaptureMode::System
    } else if has_flag(args, "--mic") {
        CaptureMode::Mic
    } else if has_flag(args, "--mix-mode=split") {
        CaptureMode::Both(MixMode::Split)
    } else {
        CaptureMode::Both(MixMode::Stereo)
    };
    let chunk_duration = number_option(args, "--chunk-duration=", u32::MAX as u64, 30) as u32;
    let overlap = number_option(args, "--overlap=", u32::MAX as u64, 0) as u32;
    let output_dir = match option_value(args, "--output-dir=") {
        Some(dir) => dir,
        None => default_output_dir.to_string(),
    };
    let output = match option_value(args, "--output=") {
        Some(path) => Some(path),
        None => first_positional(args),
    };
    let no_transcribe = has_flag(args, "--no-transcribe");
    let save_audio = has_flag(args, "--save-audio");
    let concurrency = number_option(args, "--concurrency=", usize::MAX as u64, 2) as usize;
    let local_port = match option_value(args, "--local-port=") {
        Some(value) => match parse_number(value.as_str(), u16::MAX as u64) {
            Some(port) => Some(port as u16),
            None => None,
        },
        None => None,
    };
    Config {
        mode,
        chunk_duration,
        overlap,
        output_dir,
        output,
        no_transcribe,
        save_audio,
        concurrency,
        local_port,
    }
}

/// What the program is asked to do.
#[derive(Debug, PartialEq, Eq)]
pub enum Command {
    /// Print the usage.
    Help,
    /// Transcribe a pair of files, given as `SYSTEM,MIC`, and merge them.
    TranscribePair(String),
    /// Transcribe one file.
    Transcribe(String),
    /// Capture audio.
    Capture,
}

/// The mathematical content of a [`Command`].
pub enum CommandView {
    Help,
    TranscribePair(Seq<char>),
    Transcribe(Seq<char>),
    Capture,
}

impl View for Command {
    type V = CommandView;

    open spec fn view(&self) -> CommandView {
        match self {
            Command::Help => CommandView::Help,
            Command::TranscribePair(pair) => CommandView::TranscribePair(pair@),
            Command::Transcribe(path) => CommandView::Transcribe(path@),
            Command::Capture => CommandView::Capture,
        }
    }
}

/// The command that the arguments ask for. A request for help goes before
/// everything else, a pair before a single file, and capture is what is
/// done when nothing else is asked.
pub open spec fn command_of(args: Seq<Seq<char>>) -> CommandView {
    if args.contains("--help"@) || args.contains("-h"@) {
        CommandView::Help
    } else {
        match value_of(args, "--transcribe-pair="@) {
            Some(pair) => CommandView::TranscribePair(pair),
            None => match value_of(args, "--transcribe="@) {
                Some(path) => CommandView::Transcribe(path),
                None => CommandView::Capture,
            },
        }
    }
}

/// Reads from the arguments what the program is asked to do.
pub fn command(args: &Vec<String>) -> (cmd: Command)
    ensures
        cmd@ == command_of(texts(args@)),
{
    if has_flag(args, "--help") || has_flag(args, "-h") {
        return Command::Help;
    }
    match option_value(args, "--transcribe-pair=") {
        Some(pair) => Command::TranscribePair(pair),
        None => match option_value(args, "--transcribe=") {
            Some(path) => Command::Transcribe(path),
            None => Command::Capture,
        },
    }
}

/// The position of the first comma, or the length if there is none.
pub open spec fn comma_at(s: Seq<char>) -> int
    decreases s.len(),
{
    if s.len() == 0 || s[0] == ',' {
        0
    } else {
        1 + comma_at(s.drop_first())
    }
}

/// Splits `SYSTEM,MIC` at its first comma. Without a comma there is no
/// pair.
pub fn split_pair(pair: &str) -> (paths: Option<(String, String)>)
    ensures
        paths is Some <==> comma_at(pair@) < pair@.len(),
        paths matches Some(p) ==> p.0@ == pair@.take(comma_at(pair@)) && p.1@ == pair@.skip(
            comma_at(pair@) + 1,
        ),
{
    let chars = chars_of(pair);
    assert(pair@.skip(0) =~= pair@);
    let mut i: usize = 0;
    while i < chars.len() && chars[i] != ','
        invariant
            i <= chars.len(),
            chars@ == pair@,
            comma_at(pair@) == i + comma_at(pair@.skip(i as int)),
        decreases chars.len() - i,
    {
        assert(pair@.skip(i as int).drop_first() =~= pair@.skip(i + 1));
        i += 1;
    }
    if i == chars.len() {
        None
    } else {
        let system = string_of(&chars, 0, i);
        let mic = string_of(&chars, i + 1, chars.len());
        assert(system@ =~= pair@.take(i as int));
        assert(mic@ =~= pair@.skip(i + 1));
        Some((system, mic))
    }
}

/// Where transcripts come from during capture.
#[derive(Clone, Copy, Debug, PartialEq, Eq, Structural)]
pub enum Backend {
    /// Nowhere: audio is recorded only.
    RecordOnly,
    /// The endpoint given with `--api-url=`.
    Remote,
    /// A transcription server started on this machine.
    Local,
}

/// Chooses the transcription backend of a capture run. Only a capture of
/// both sources is transcribed, and only if that was not switched off; an
/// endpoint given on the command line goes before the local server.
pub fn choose_backend(config: &Config, has_api_url: bool) -> (backend: Backend)
    ensures
        backend == if config.no_transcribe || !(config.mode is Both) {
            Backend::RecordOnly
        } else if has_api_url {
            Backend::Remote
        } else {
            Backend::Local
        },
{
    let both = match config.mode {
        CaptureMode::Both(_) => true,
        _ => false,
    };
    if config.no_transcribe || !both {
        Backend::RecordOnly
    } else if has_api_url {
        Backend::Remote
    } else {
        Backend::Local
    }
}

/// The layout in which chunks are written: transcription needs one file per
/// source, whatever was asked for; a single source has no layout to choose.
pub fn chunk_layout(mode: CaptureMode, backend: Backend) -> (layout: Option<MixMode>)
    ensures
        layout == match mode {
            CaptureMode::Both(asked) => Some(
                if backend == Backend::RecordOnly {
                    asked
                } else {
                    MixMode::Split
                },
            ),
            _ => None,
        },
{
    match mode {
        CaptureMode::Both(asked) => {
            match backend {
                Backend::RecordOnly => Some(asked),
                _ => Some(MixMode::Split),
            }
        },
        _ => None,
    }
}

/// Why the settings of a command could not be put together.
#[derive(Clone, Copy, Debug, PartialEq, Eq, Structural)]
pub enum ConfigError {
    /// A remote endpoint is to be used, but no key is set for it.
    MissingApiKey,
    /// The value of `--transcribe-pair=` holds no comma.
    MalformedPair,
}

impl ConfigError {
    /// The message shown to the user.
    pub fn message(&self) -> (text: String)
        ensures
            text@ == match self {
                ConfigError::MissingApiKey => "OPENAI_API_KEY not set"@,
                ConfigError::MalformedPair => "--transcribe-pair expects SYSTEM.wav,MIC.wav"@,
            },
    {
        match self {
            ConfigError::MissingApiKey => "OPENAI_API_KEY not set".to_string(),
            ConfigError::MalformedPair => "--transcribe-pair expects SYSTEM.wav,MIC.wav".to_string(),
        }
    }
}

/// Puts together the settings for a remote backend: the key from the
/// environment, which must be there, and endpoint and model from the
/// arguments, each with its default.
pub fn transcribe_config(args: &Vec<String>, api_key: Option<String>) -> (config: Result<
    TranscribeConfig,
    ConfigError,
>)
    ensures
        api_key is None <==> config is Err,
        config matches Err(e) ==> e == ConfigError::MissingApiKey,
        config matches Ok(c) ==> {
            &&& c.api_key@ == api_key->0@
            &&& c.api_url@ == match value_of(texts(args@), "--api-url="@) {
                Some(url) => url,
                None => "https://api.openai.com/v1/audio/transcriptions"@,
            }
            &&& c.model@ == match value_of(texts(args@), "--model="@) {
                Some(model) => model,
                None => "whisper-1"@,
            }
        },
{
    match api_key {
        None => Err(ConfigError::MissingApiKey),
        Some(key) => {
            let api_url = match option_value(args, "--api-url=") {
                Some(url) => url,
                None => "https://api.openai.com/v1/audio/transcriptions".to_string(),
            };
            let model = match option_value(args, "--model=") {
                Some(model) => model,
                None => "whisper-1".to_string(),
            };
            Ok(TranscribeConfig { api_key: key, api_url, model })
        },
    }
}

/// The model that the local server is started with: the value of
/// `--model=`, or `medium`.
pub fn local_model(args: &Vec<String>) -> (model: String)
    ensures
        model@ == match value_of(texts(args@), "--model="@) {
            Some(model) => model,
            None => "medium"@,
        },
{
    match option_value(args, "--model=") {
        Some(model) => model,
        None => "medium".to_string(),
    }
}

/// The default name of the narrative document: `transcript-{date}.md`.
pub fn default_transcript_name(date: &str) -> (name: String)
    ensures
        name@ == "transcript-"@ + date@ + ".md"@,
{
    let mut name = String::new();
    name.append("transcript-");
    name.append(date);
    name.append(".md");
    assert(name@ =~= "transcript-"@ + date@ + ".md"@);
    name
}

} // verus!

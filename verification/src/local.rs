//! The transcription server that can be started on this machine: where its
//! program and its model are looked for, and at which addresses it answers.

use vstd::prelude::*;
use crate::text::{decimal, push_decimal};
use crate::transcribe::TranscribeConfig;

verus! {

/// The port that the local server listens on unless told otherwise.
pub const DEFAULT_PORT: u16 = 8080;

/// The address of the local server's transcription endpoint.
pub fn api_url(port: u16) -> (url: String)
    ensures
        url@ == "http://localhost:"@ + decimal(port as nat) + "/inference"@,
{
    let mut url = String::new();
    url.append("http://localhost:");
    push_decimal(&mut url, port as u64);
    url.append("/inference");
    assert(url@ =~= "http://localhost:"@ + decimal(port as nat) + "/inference"@);
    url
}

/// The address at which the local server reports that it is ready.
pub fn health_url(port: u16) -> (url: String)
    ensures
        url@ == "http://localhost:"@ + decimal(port as nat) + "/health"@,
{
    let mut url = String::new();
    url.append("http://localhost:");
    push_decimal(&mut url, port as u64);
    url.append("/health");
    assert(url@ =~= "http://localhost:"@ + decimal(port as nat) + "/health"@);
    url
}

/// The port to use: the one asked for, or the default.
pub fn port_or_default(port: Option<u16>) -> (chosen: u16)
    ensures
        chosen == match port {
            Some(p) => p,
            None => DEFAULT_PORT,
        },
{
    match port {
        Some(p) => p,
        None => DEFAULT_PORT,
    }
}

/// The file name of a model: `ggml-{model}.bin`.
pub open spec fn model_file(model: Seq<char>) -> Seq<char> {
    "ggml-"@ + model + ".bin"@
}

/// The places below the home directory where a model is looked for, in the
/// order in which they are tried.
pub fn model_candidates(home: &str, model: &str) -> (paths: Vec<String>)
    ensures
        paths@.len() == 3,
        paths@[0]@ == home@ + "/.cache/whisper/"@ + model_file(model@),
        paths@[1]@ == home@ + "/.local/share/scribe/models/"@ + model_file(model@),
        paths@[2]@ == home@ + "/models/"@ + model_file(model@),
{
    let mut file = String::new();
    file.append("ggml-");
    file.append(model);
    file.append(".bin");
    assert(file@ =~= model_file(model@));
    let mut paths: Vec<String> = Vec::new();
    let mut first = String::new();
    first.append(home);
    first.append("/.cache/whisper/");
    first.append(file.as_str());
    assert(first@ =~= home@ + "/.cache/whisper/"@ + model_file(model@));
    let mut second = String::new();
    second.append(home);
    second.append("/.local/share/scribe/models/");
    second.append(file.as_str());
    assert(second@ =~= home@ + "/.local/share/scribe/models/"@ + model_file(model@));
    let mut third = String::new();
    third.append(home);
    third.append("/models/");
    third.append(file.as_str());
    assert(third@ =~= home@ + "/models/"@ + model_file(model@));
    paths.push(first);
    paths.push(second);
    paths.push(third);
    paths
}

/// The names under which the server's program is looked for, in the order
/// in which they are tried.
pub fn server_binaries() -> (names: Vec<String>)
    ensures
        names@.len() == 2,
        names@[0]@ == "whisper-cpp-server"@,
        names@[1]@ == "whisper-server"@,
{
    let mut names: Vec<String> = Vec::new();
    names.push("whisper-cpp-server".to_string());
    names.push("whisper-server".to_string());
    names
}

/// The settings for transcribing through the local server on `port`: its
/// endpoint, no key, and no model name (the server has its model loaded).
pub fn local_config(port: u16) -> (config: TranscribeConfig)
    ensures
        config.api_key@.len() == 0,
        config.model@.len() == 0,
        config.api_url@ == "http://localhost:"@ + decimal(port as nat) + "/inference"@,
{
    TranscribeConfig { api_key: String::new(), api_url: api_url(port), model: String::new() }
}

} // verus!

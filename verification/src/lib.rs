//! Dual-source audio capture and transcription: the verified core.
//!
//! Two audio sources, the system output and the microphone, are cut into
//! chunks of fixed duration, brought to one format, and transcribed. This
//! library holds what is decided and computed along the way:
//!
//! - [`cli`]: the command line and what it asks for;
//! - [`chunker`]: when a chunk is complete and what is kept as overlap;
//! - [`mixer`] and [`resample`]: the transform of a chunk's samples;
//! - [`pipeline`]: silence, the result of a chunk, and the narrative
//!   document;
//! - [`transcribe`]: transcripts and the policy for calling the backend;
//! - [`bleed`] and [`merge`]: removal of echoed words and the merge of the
//!   two speakers;
//! - [`local`]: the transcription server on this machine;
//! - [`text`]: strings.
//!
//! Capture devices, files, the network and the process itself are left to
//! the caller, who hands in plain values and gets plain values back.

pub mod bleed;
pub mod chunker;
pub mod cli;
pub mod local;
pub mod merge;
pub mod mixer;
pub mod pipeline;
pub mod resample;
pub mod text;
pub mod transcribe;

//! Transcript processing: English filtering, deduplication, translation
//! bookkeeping and the naming rules of the speech tools around it.

pub mod batch;
pub mod classify;
pub mod dict;
pub mod normalize;
pub mod pipeline;
pub mod segment;
pub mod speech;
pub mod subtitle;
pub mod text;
pub mod tools;
pub mod workspace;
pub mod youdao;

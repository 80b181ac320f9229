use vstd::prelude::*;

pub mod text;
pub mod json;
pub mod sidecar;
pub mod preflight;
pub mod imports;
pub mod active;
pub mod dispatch;
pub mod clock;
pub mod natural;
pub mod paths;
pub mod prepare;
pub mod saved_folder;
pub mod matching;
pub mod hashcache;
pub mod imaging;
pub mod web;
pub mod thumbs;
pub mod replacements;
pub mod upload;
pub mod oauth;
pub mod digest;
pub mod done;

verus! {

} // verus!

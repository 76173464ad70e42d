use vstd::prelude::*;

pub mod compaction;
pub mod config;
pub mod context;
pub mod context_provider;
pub mod custom_task;
pub mod file_logger;
pub mod json;
pub mod proxy;
pub mod question_detector;
pub mod registry;
pub mod request;
pub mod sse;
pub mod step_tracker;
pub mod store;
pub mod text;
pub mod webhook;

verus! {

/// Largest request body, in bytes, that the proxy accepts.
pub const MAX_REQUEST_BODY_SIZE: usize = 104857600;

/// Whether a request body of `len` bytes fits under the body cap.
pub fn body_within_limit(len: usize) -> (r: bool)
    ensures
        r == (len <= 100 * 1024 * 1024),
{
    len <= MAX_REQUEST_BODY_SIZE
}

} // verus!

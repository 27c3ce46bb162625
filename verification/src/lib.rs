//! An HTTP cache policy engine: given a request, the response that answered
//! it, a small configuration record and an instant, it decides whether the
//! response may be stored, how long it stays fresh, whether a stored response
//! may answer a later request, which conditional request to send when it may
//! not, and how a `304 Not Modified` answer folds back into the stored entry.
pub mod clock;
pub mod dates;
pub mod fields;
pub mod laws;
pub mod policy;
pub mod reval;
pub mod satisfy;
pub mod text;

pub use policy::{CacheOptions, CachePolicy, HttpRequest, HttpResponse};

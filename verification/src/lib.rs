//! A local secrets-caching layer: a bounded, TTL-limited cache of secret
//! values that sits between clients and a remote secrets-management service,
//! together with the error classification that turns arbitrary upstream
//! failures into a small, stable taxonomy and an exact wire error body.

pub mod cache;
pub mod error;
pub mod laws;
pub mod manager;
pub mod wire;

pub use cache::CacheKey;
pub use cache::SecretCache;
pub use cache::SecretValue;
pub use error::ClassifiedError;
pub use error::HttpError;
pub use error::RawFailure;
pub use error::classify;
pub use error::err_response;
pub use error::int_err;
pub use error::is_transient_error;
pub use manager::CacheManager;
pub use manager::FetchAction;

//! A verified core for a calendar-subscription service: a JSON document of
//! per-user subscription lists, the idempotent add/remove mutation over it,
//! the document codec, and the per-request state machine that orchestrates
//! fetch, mutate, save and publish against a remote repository.
pub mod codec;
pub mod machine;
pub mod store;

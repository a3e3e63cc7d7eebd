//! Core record stores for two small services: a todo list and a URL
//! shortener. Each store keeps one kind of record, enforces its invariants
//! (unique monotonic ids, timestamp bookkeeping, partial-update semantics),
//! and, for the shortener, derives a short token from a record id by a
//! deterministic, injective base-62 encoding.

pub mod errors;
pub mod seq_lemmas;
pub mod todo_store;
pub mod token;
pub mod url_store;

pub use errors::StoreError;
pub use todo_store::{Todo, TodoStore};
pub use token::id_to_base62;
pub use url_store::{validate_url, CreateURLBody, Url, UrlStore};

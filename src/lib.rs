//! A URL shortener's mapping engine: random short codes, a store that keeps
//! every code unique, retries on collisions, and resolves codes back to URLs.

pub mod code;
pub mod retry;
pub mod store;
pub mod laws;
pub mod link;

//! Verified core of the nail knowledge base: input validation, hashing,
//! proof-of-work, paging and the other rules the service applies.

pub mod chars;
pub mod fmt;
pub mod hex;
pub mod hash;
pub mod pow;
pub mod tag;
pub mod ids;
pub mod time;
pub mod pagination;
pub mod pdf;
pub mod text;
pub mod name;
pub mod error;
pub mod session;
pub mod version;
pub mod email;
pub mod config;
pub mod response;
pub mod role;
pub mod fixtures;
pub mod routes;
pub mod search;
pub mod mailbox;
pub mod datetime;
pub mod ratelimit;
pub mod logs;
pub mod multipart;
pub mod extract;
pub mod tokens;

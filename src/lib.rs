//! Recovers gacha history URLs from a game client's HTTP disk cache, validates
//! them against an account, and drives the paginated history download.

pub mod codec;
pub mod dict;
pub mod disk_cache;
pub mod extractor;
pub mod gacha;
pub mod plugin;
pub mod pull;
pub mod record_time;
pub mod records;
pub mod requests;
pub mod services;
pub mod storage;
pub mod text;
pub mod validator;
pub mod web_caches;

pub mod api;
pub mod auth;
pub mod cache_laws;
pub mod catalog;
pub mod client;
pub mod clock;
pub mod config;
pub mod db;
pub mod digest;
pub mod domain;
pub mod door_laws;
pub mod downloader;
pub mod ids;
pub mod links;
pub mod live_pages;
pub mod media_token;
pub mod notifier;
pub mod numerals;
pub mod oidc;
pub mod order;
pub mod proxy_identity;
pub mod publishing;
pub mod shell;
pub mod source_laws;
pub mod sources;
pub mod static_cache;
pub mod streamer;
pub mod sync;
pub mod sync_laws;
pub mod tables;
pub mod text;
pub mod text_laws;

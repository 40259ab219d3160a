//! Verified core of a social indexer.
pub mod cache;
pub mod cli;
pub mod fixtures;
pub mod index_laws;
pub mod media;
pub mod migrations;
pub mod order;
pub mod post_index;
pub mod post_laws;
pub mod post_read;
pub mod post_stream;
pub mod pubky_id;
pub mod ranked_sync;
pub mod ranked_sync_laws;
pub mod reach;
pub mod read_laws;
pub mod resource_stream;
pub mod runner;
pub mod scored;
pub mod search;
pub mod sorted_set;
pub mod text;
pub mod types;

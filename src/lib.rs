//! A comic-gallery downloader: page scrapers, the site client's decisions,
//! and the download engine's state machine.
pub mod text;
pub mod types;
pub mod download_manager;
pub mod layout;
pub mod imglist;
pub mod dom;
pub mod scrape;
pub mod client;
pub mod export;

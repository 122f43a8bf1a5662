//! A verified core for a breadth-limited web crawler.
//!
//! The crate models a crawl as a growing graph of pages ([`model::link_graph::LinkGraph`]),
//! a worklist of pending visits ([`crawler::Frontier`]), and a per-worker state
//! machine that decides, from the shared state alone, whether to fetch another
//! page, wait, or stop ([`crawler::CrawlerState`]). Page fetching itself is I/O
//! and lives outside this crate; the extraction of links, images and titles from
//! a fetched document is in [`scrape`].

pub mod crawler;
pub mod image_utils;
pub mod model;
pub mod scrape;
mod strutil;

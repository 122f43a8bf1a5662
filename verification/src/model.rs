//! The data model of a crawl: pages, the images found on them, and the graph
//! that records how pages link to one another.

pub mod image;
pub mod link;
pub mod link_graph;

//! A small quote-site core: a collection of quotes with
//! random-without-replacement selection and a stable date-sorted full
//! listing, loaders that turn JSON or CSV text into that collection, and
//! the date-key logic that names generated pages and decides which page
//! counts as today's.

pub mod cli;
pub mod codec;
pub mod datekey;
pub mod loader;
pub mod quotes;
pub mod sitemap;
pub mod strutil;

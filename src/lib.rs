//! A read-only e-book catalog: slug codec, document cache, table-of-contents
//! flattening, the decisions behind resource and cover lookup, and the HTML
//! pages that present them.
pub mod cache;
pub mod library;
pub mod slug;
pub mod templates;
pub mod toc;

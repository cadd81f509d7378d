//! A verified core for an RSS feed reader: a generic query engine over
//! labeled document trees, a closed error taxonomy, the item-extraction
//! algorithm with its date-format contract, and a grapheme-based word wrap.

pub mod dates;
pub mod feed;
pub mod errors;
pub mod tree;
pub mod wordwrap;

//! Aligned plain-text tables.
//!
//! Rows of byte-string fields are buffered, measured, and emitted as lines in
//! which every column starts at the same display offset.
//!
//! * [`width`] measures a field: code points for text, bytes for anything
//!   else.
//! * [`condense`] cuts a field down to a limit and marks the cut.
//! * [`layout`] defines, in ghost code, the bytes of a finished table.
//! * [`aligner`] buffers rows and emits the table that `layout` defines.
//! * [`table`] does all of it in one call.
//! * [`lines`] and [`columns`] prove what holds of every finished table.
//! * [`flags`] reads option values from text.

pub mod aligner;
pub mod columns;
pub mod condense;
pub mod flags;
pub mod layout;
pub mod lines;
pub mod table;
pub mod width;

//! A terminal-resident inventory tracker: a hierarchical store of physical
//! storage locations (compartments holding containers holding items) and
//! cross-cutting tags, driven by a line-oriented command language typed into
//! a text field, with the whole store persisted as one JSON snapshot.
//!
//! Every data structure and rule lives here, verified: the store and its
//! referential integrity (`inventory`), the command tokenizer (`tokenizer`)
//! and dispatcher (`dispatch`), the line editor and application state
//! (`gui`), the snapshot codec with its proved round trip (`codec`), and the
//! overview line formatting (`overview`). Terminal I/O, the event producer
//! threads and the widget painting sit outside, in the binary around this
//! library.

pub mod codec;
pub mod dispatch;
pub mod error;
pub mod gui;
pub mod inventory;
pub mod overview;
pub mod text;
pub mod tokenizer;

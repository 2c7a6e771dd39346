//! Rendering logic of a CommonMark viewer: the parse of markdown text into
//! events, by pulldown-cmark, and the decisions that turn those events into
//! layout commands, with every step proved against its contract.
use vstd::prelude::*;

pub mod alert;
pub mod cell;
pub mod collect;
pub mod elements;
pub mod events;
pub mod flow;
pub mod keep;
pub mod key;
pub mod laws;
pub mod list;
pub mod newline;
pub mod options;
pub mod parse;
pub mod process;
pub mod render;
pub mod scope;
pub mod scroll;
pub mod settle;
pub mod style;
pub mod table;
pub mod trim;
pub mod viewer;

verus! {

} // verus!

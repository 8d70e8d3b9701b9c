//! What the operations are for, told of the tables themselves: which rows an
//! answer rests on, what a change writes and what it leaves alone.

pub mod admission;
pub mod dependencies;
pub mod detach;
pub mod edit_calls;
pub mod edits;
pub mod facts;
pub mod log;
pub mod log_calls;
pub mod messages;
pub mod next;
pub mod plan;
pub mod promotion;
pub mod read_calls;
pub mod reads;
pub mod recovery;
pub mod relocation;
pub mod reports;
pub mod store_calls;
pub mod stores;
pub mod table_calls;
pub mod withdrawal;
pub mod words;

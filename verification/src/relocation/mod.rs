//! Resumable cutover of a legacy Store. The Git pointer selects authority.

pub mod cutover;
pub mod metadata;
pub mod retry;
pub mod source;

pub use cutover::{migrate, Boundary, Cutover, Leftover, Reply, Step};
pub use metadata::{
    access, allowed, fault, pending, refuse_pending, stage, FileHash, Progress, Receipt,
};

//! A compiler from a small register-and-stack assembly language to Brainfuck,
//! with retargeting of the Brainfuck to wider cells and to C.
use vstd::prelude::*;

pub mod code;
pub mod location;
pub mod table;
pub mod dynamic;
pub mod assembly;
pub mod dispatch;
pub mod bf;
pub mod targets;
pub mod canon;
pub mod comments;
pub mod art;
pub mod semantics;

verus! {

/// Number of logical cells on the runtime tape.
pub const TAPE_SIZE: usize = 30000;

} // verus!

//! Completion specifications derived from a command-line description: flags with
//! their signatures, value completions, positional slots and the command tree.

use vstd::prelude::*;

pub mod command;
pub mod completion;
pub mod flags;
pub mod hint;
pub mod laws;
pub mod model;
pub mod order;
pub mod ordered_map;
pub mod text;

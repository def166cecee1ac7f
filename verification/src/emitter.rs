//! Messages carried from the collectors to their consumer.

use vstd::prelude::*;

verus! {

/// One event: its name and its payload text.
#[derive(Debug, Clone)]
pub enum EventMessage {
    Emit(String, String),
}

} // verus!

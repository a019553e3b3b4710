use vstd::prelude::*;

verus! {

/// The fatal conditions that abort an in-progress batch of cycles: an opcode
/// that matches no instruction shape (carrying the offending word), a call
/// while the return stack is at capacity, and a return while it is empty.
#[derive(Clone, Copy, Debug, PartialEq, Eq, Structural)]
pub enum Error {
    IllegalOpcode { opcode: u16 },
    StackOverflow,
    StackUnderflow,
}

} // verus!

use vstd::prelude::*;

verus! {

/// An instruction of a worker's code, written as bytes.
pub trait Opcode: Sized {
    /// The bytes of this instruction.
    fn as_bytes(&self) -> Vec<u8>;
}

} // verus!

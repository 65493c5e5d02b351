//! Sample blocks for exercising block support: a block that takes no
//! arguments and returns an integer, and a block that adds a fixed amount
//! to its integer argument.

use vstd::prelude::*;

verus! {

/// A block that takes no arguments and returns an integer:
/// `int32_t (^)()`.
pub struct IntBlock {
    value: i32,
}

impl View for IntBlock {
    type V = i32;

    /// What the block returns when invoked.
    closed spec fn view(&self) -> i32 {
        self.value
    }
}

/// A block that takes one integer argument, adds to it, and returns the
/// sum: `int32_t (^)(int32_t)`.
pub struct AddBlock {
    addend: i32,
}

impl View for AddBlock {
    type V = i32;

    /// What the block adds to its argument.
    closed spec fn view(&self) -> i32 {
        self.addend
    }
}

/// The global `IntBlock`, which returns 7.
pub fn get_int_block() -> (b: IntBlock)
    ensures
        b@ == 7,
{
    IntBlock { value: 7 }
}

/// An `IntBlock` that returns `i`.
pub fn get_int_block_with(i: i32) -> (b: IntBlock)
    ensures
        b@ == i,
{
    IntBlock { value: i }
}

/// The global `AddBlock`, which returns its argument plus 7.
pub fn get_add_block() -> (b: AddBlock)
    ensures
        b@ == 7,
{
    AddBlock { addend: 7 }
}

/// An `AddBlock` that returns its argument plus `i`.
pub fn get_add_block_with(i: i32) -> (b: AddBlock)
    ensures
        b@ == i,
{
    AddBlock { addend: i }
}

/// Invokes an `IntBlock` and returns its result.
pub fn invoke_int_block(block: &IntBlock) -> (r: i32)
    ensures
        r == block@,
{
    block.value
}

/// Invokes an `AddBlock` with `a` and returns the result, which must fit
/// in an `i32`.
pub fn invoke_add_block(block: &AddBlock, a: i32) -> (r: i32)
    requires
        i32::MIN <= a + block@ <= i32::MAX,
    ensures
        r == a + block@,
{
    a + block.addend
}

} // verus!

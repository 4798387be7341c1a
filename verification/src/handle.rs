//! Latest-value cells between the control thread and the render thread.

use std::sync::atomic::{AtomicU32, Ordering};
use std::sync::Arc;
use vstd::prelude::*;

verus! {

/// A cell that carries the latest value of one parameter from the thread
/// that sets it to the thread that renders. Writing never waits and
/// reading never waits; a value that was overwritten before it was read
/// is lost.
///
/// The cell may be written from another thread at any moment, so nothing
/// is stated of the value that a read returns.
pub struct ParameterHandle {
    cell: Arc<AtomicU32>,
}

/// `Arc::clone` on a parameter cell: a second pointer to the same cell.
#[verifier::external_body]
fn share_cell(cell: &Arc<AtomicU32>) -> (shared: Arc<AtomicU32>)
    ensures
        shared == *cell,
{
    Arc::clone(cell)
}

impl ParameterHandle {
    /// The cell behind the handle.
    pub closed spec fn cell(&self) -> AtomicU32 {
        *self.cell
    }

    /// A new cell that holds `initial`.
    pub fn new(initial: u32) -> ParameterHandle {
        ParameterHandle { cell: Arc::new(AtomicU32::new(initial)) }
    }

    /// Replaces the value in the cell.
    pub fn set(&self, value: u32) {
        self.cell.store(value, Ordering::Release);
    }

    /// The value most recently set.
    pub fn get_latest(&self) -> u32 {
        self.cell.load(Ordering::Acquire)
    }

    /// A second handle on the same cell, for the other thread.
    pub fn share(&self) -> (shared: ParameterHandle)
        ensures
            shared.cell() == self.cell(),
    {
        ParameterHandle { cell: share_cell(&self.cell) }
    }
}

} // verus!

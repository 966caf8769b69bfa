//! What a tree can store: values that fill one signed 32-bit cell.

use vstd::prelude::*;

verus! {

/// A value that a leaf can hold. It is written to the flat buffer as one cell.
pub trait Voxel: Copy {
    /// The cell that stands for the value.
    spec fn cell(self) -> i32;

    /// Computes the cell that stands for the value.
    fn to_cell(self) -> (c: i32)
        ensures
            c == self.cell(),
    ;
}

impl Voxel for i32 {
    open spec fn cell(self) -> i32 {
        self
    }

    fn to_cell(self) -> (c: i32) {
        self
    }
}

impl Voxel for bool {
    open spec fn cell(self) -> i32 {
        if self {
            1
        } else {
            0
        }
    }

    fn to_cell(self) -> (c: i32) {
        if self {
            1
        } else {
            0
        }
    }
}

impl Voxel for i8 {
    open spec fn cell(self) -> i32 {
        self as i32
    }

    fn to_cell(self) -> (c: i32) {
        self as i32
    }
}

impl Voxel for i16 {
    open spec fn cell(self) -> i32 {
        self as i32
    }

    fn to_cell(self) -> (c: i32) {
        self as i32
    }
}

impl Voxel for u8 {
    open spec fn cell(self) -> i32 {
        self as i32
    }

    fn to_cell(self) -> (c: i32) {
        self as i32
    }
}

impl Voxel for u16 {
    open spec fn cell(self) -> i32 {
        self as i32
    }

    fn to_cell(self) -> (c: i32) {
        self as i32
    }
}

} // verus!

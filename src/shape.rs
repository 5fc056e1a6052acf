use vstd::prelude::*;
use crate::square::at_spec;

verus! {

/// How the two letters of a digraph lie in the square.
#[derive(Debug, Clone, Copy, PartialEq, Eq, Structural)]
pub enum Shape {
    /// Different rows and columns: the opposite corners of a rectangle.
    Rectangle { x1: usize, y1: usize, x2: usize, y2: usize },
    /// The same column.
    VerticalLine { x: usize, y1: usize, y2: usize },
    /// The same row, in different columns.
    HorizontalLine { y: usize, x1: usize, x2: usize },
}

/// The shape of two square positions, with `x = pos % 5` and `y = pos / 5`:
/// a shared column first, then a shared row, else a rectangle.
pub open spec fn classify(p1: nat, p2: nat) -> Shape {
    let x1 = (p1 % 5) as usize;
    let y1 = (p1 / 5) as usize;
    let x2 = (p2 % 5) as usize;
    let y2 = (p2 / 5) as usize;
    if x1 == x2 {
        Shape::VerticalLine { x: x1, y1, y2 }
    } else if y1 == y2 {
        Shape::HorizontalLine { y: y1, x1, x2 }
    } else {
        Shape::Rectangle { x1, y1, x2, y2 }
    }
}

/// The substitute for a digraph of the given shape: a rectangle swaps its
/// columns, a line moves both letters `step` places along itself.
pub open spec fn apply(sq: Seq<char>, shape: Shape, step: int) -> (char, char) {
    match shape {
        Shape::Rectangle { x1, y1, x2, y2 } => (at_spec(sq, x2 as int, y1 as int), at_spec(
            sq,
            x1 as int,
            y2 as int,
        )),
        Shape::VerticalLine { x, y1, y2 } => (at_spec(sq, x as int, y1 + step), at_spec(
            sq,
            x as int,
            y2 + step,
        )),
        Shape::HorizontalLine { y, x1, x2 } => (at_spec(sq, x1 + step, y as int), at_spec(
            sq,
            x2 + step,
            y as int,
        )),
    }
}

impl Shape {
    /// The variant's name, for diagnostics.
    pub fn name(&self) -> (r: &'static str)
        ensures
            r@ == match self {
                Shape::Rectangle { .. } => "Rectangle"@,
                Shape::VerticalLine { .. } => "VerticalLine"@,
                Shape::HorizontalLine { .. } => "HorizontalLine"@,
            },
    {
        match self {
            Shape::Rectangle { .. } => "Rectangle",
            Shape::VerticalLine { .. } => "VerticalLine",
            Shape::HorizontalLine { .. } => "HorizontalLine",
        }
    }
}

} // verus!

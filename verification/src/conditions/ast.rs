//! The syntax tree of a condition.

use vstd::prelude::*;

verus! {

/// How the numbers of one range are joined when the range is written out.
#[derive(Debug, Clone, Copy, PartialEq, Eq)]
pub enum RangeOp {
    Or,
    And,
}

/// How two conditions are joined.
#[derive(Debug, Clone, Copy, PartialEq, Eq)]
pub enum BinaryOp {
    And,
    Or,
}

/// The detector numbers from `start` to `end`, both included.
///
/// A range is meant to have `start <= end`; the type does not enforce it.
#[derive(Debug, Clone, Copy, PartialEq, Eq)]
pub struct Range {
    pub start: u16,
    pub end: u16,
    pub operator: RangeOp,
}

/// A condition.
#[derive(Debug, PartialEq, Eq)]
pub enum Expr {
    /// A range of detector numbers.
    Range(Range),
    /// Two conditions joined by `and` or `or`.
    Binary { op: BinaryOp, left: Box<Expr>, right: Box<Expr> },
    /// A condition together with an MR number.
    WithMr { ddr_expr: Box<Expr>, mr: u16 },
}

impl Range {
    /// The range with these fields, whatever they are.
    pub fn new(start: u16, end: u16, operator: RangeOp) -> (r: Range)
        ensures
            r == (Range { start, end, operator }),
    {
        Range { start, end, operator }
    }

    /// `start <= end`.
    pub open spec fn is_ordered(self) -> bool {
        self.start <= self.end
    }
}

impl Expr {
    /// A copy of `self`.
    pub fn duplicate(&self) -> (r: Expr)
        ensures
            r == *self,
        decreases *self,
    {
        match self {
            Expr::Range(range) => Expr::Range(*range),
            Expr::Binary { op, left, right } => Expr::Binary {
                op: *op,
                left: Box::new(left.duplicate()),
                right: Box::new(right.duplicate()),
            },
            Expr::WithMr { ddr_expr, mr } => Expr::WithMr {
                ddr_expr: Box::new(ddr_expr.duplicate()),
                mr: *mr,
            },
        }
    }

    /// No `WithMr` occurs in `self`.
    pub open spec fn is_plain(self) -> bool
        decreases self,
    {
        match self {
            Expr::Range(_) => true,
            Expr::Binary { left, right, .. } => left.is_plain() && right.is_plain(),
            Expr::WithMr { .. } => false,
        }
    }

    /// `WithMr` occurs at most once in `self`, and then at the root.
    pub open spec fn mr_only_outermost(self) -> bool {
        match self {
            Expr::WithMr { ddr_expr, .. } => ddr_expr.is_plain(),
            _ => self.is_plain(),
        }
    }
}

impl Clone for Expr {
    fn clone(&self) -> (r: Expr)
        ensures
            r == *self,
    {
        self.duplicate()
    }
}

} // verus!

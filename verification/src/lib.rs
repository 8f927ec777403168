//! A static analysis of function bodies for unsafe aliasing.
//!
//! A body is a control-flow graph of storage locations, assignments and
//! calls (`mir`). The walk over it (`mir_visitor`) drives two engines: the
//! borrow stacks (`stacked_borrows`), which find accesses through a
//! reference whose right was invalidated, and the points-to graph
//! (`points_to`), which finds calls that pass two mutable locations that
//! may alias. What the walk computes is stated in `analysis`, what it
//! reports in `findings`.

pub mod analysis;
pub mod digraph;
pub mod findings;
pub mod mir;
pub mod mir_visitor;
pub mod points_to;
pub mod reach;
pub mod stacked_borrows;

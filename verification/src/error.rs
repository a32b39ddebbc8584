//! Why a function has no graph.
use crate::ir::{ControlOp, Position, PositionView};
use vstd::prelude::*;

verus! {

/// The errors of the graph construction.
#[derive(Debug, PartialEq, Eq)]
pub enum RvsdgError {
    /// A branch, a jump or a return with the wrong number of arguments or
    /// labels, and where it was written.
    MalformedTerminator { op: ControlOp, pos: Option<Position> },
}

/// The mathematical value of an [`RvsdgError`].
pub enum RvsdgErrorView {
    MalformedTerminator { op: ControlOp, pos: Option<PositionView> },
}

impl DeepView for RvsdgError {
    type V = RvsdgErrorView;

    open spec fn deep_view(&self) -> RvsdgErrorView {
        match self {
            RvsdgError::MalformedTerminator { op, pos } => RvsdgErrorView::MalformedTerminator {
                op: *op,
                pos: pos.deep_view(),
            },
        }
    }
}

impl View for RvsdgError {
    type V = RvsdgErrorView;

    open spec fn view(&self) -> RvsdgErrorView {
        self.deep_view()
    }
}

} // verus!

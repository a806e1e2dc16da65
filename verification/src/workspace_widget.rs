//! A workspace entry: a lightweight node wrapping one workspace snapshot.

use vstd::prelude::*;
use crate::model::Workspace;
use crate::model::WorkspaceView;

verus! {

/// Mathematical image of a [`WorkspaceWidget`].
pub struct WorkspaceWidgetView {
    pub workspace: WorkspaceView,
}

/// One reconciled node bound to one workspace entity. Replacement is a
/// whole overwrite: the entry carries no incremental state beyond the
/// snapshot, and the owning collection computes the visible summary.
#[derive(Debug)]
pub struct WorkspaceWidget {
    pub workspace: Workspace,
}

impl View for WorkspaceWidget {
    type V = WorkspaceWidgetView;

    open spec fn view(&self) -> WorkspaceWidgetView {
        WorkspaceWidgetView { workspace: self.workspace@ }
    }
}

impl WorkspaceWidget {
    /// Wraps one workspace snapshot.
    pub fn new(workspace: Workspace) -> (r: WorkspaceWidget)
        ensures
            r@.workspace == workspace@,
    {
        WorkspaceWidget { workspace }
    }
}

} // verus!

//! Snapshot types delivered by the window-manager client, modelled as
//! plain values, together with their mathematical views.

use vstd::prelude::*;

verus! {

/// Mathematical image of a [`Window`] snapshot.
pub struct WindowView {
    pub id: u64,
    pub title: Option<Seq<char>>,
    pub app_id: Option<Seq<char>>,
    pub workspace_id: Option<u64>,
    pub focused: bool,
    pub floating: bool,
    pub urgent: bool,
    pub x: i64,
}

/// A read-only window snapshot: identity, optional title and application
/// identifier, optional workspace membership, state flags, and the
/// horizontal position used as the ordering key.
#[derive(Clone, Debug)]
pub struct Window {
    pub id: u64,
    pub title: Option<String>,
    pub app_id: Option<String>,
    pub workspace_id: Option<u64>,
    pub focused: bool,
    pub floating: bool,
    pub urgent: bool,
    pub x: i64,
}

impl View for Window {
    type V = WindowView;

    open spec fn view(&self) -> WindowView {
        WindowView {
            id: self.id,
            title: opt_string_view(self.title),
            app_id: opt_string_view(self.app_id),
            workspace_id: self.workspace_id,
            focused: self.focused,
            floating: self.floating,
            urgent: self.urgent,
            x: self.x,
        }
    }
}

/// Mathematical image of a [`Workspace`] snapshot.
pub struct WorkspaceView {
    pub id: u64,
    pub name: Seq<char>,
    pub output: Option<Seq<char>>,
    pub active: bool,
    pub focused: bool,
}

/// A read-only workspace snapshot: identity, display name, the output
/// (monitor) that owns it, and its global activity and focus flags.
#[derive(Clone, Debug)]
pub struct Workspace {
    pub id: u64,
    pub name: String,
    pub output: Option<String>,
    pub active: bool,
    pub focused: bool,
}

impl View for Workspace {
    type V = WorkspaceView;

    open spec fn view(&self) -> WorkspaceView {
        WorkspaceView {
            id: self.id,
            name: self.name@,
            output: opt_string_view(self.output),
            active: self.active,
            focused: self.focused,
        }
    }
}

/// View of an optional string: the character sequence, when present.
pub open spec fn opt_string_view(o: Option<String>) -> Option<Seq<char>> {
    match o {
        Some(s) => Some(s@),
        None => None,
    }
}

/// Structural equality of two optional strings, decided by content.
fn opt_string_eq(a: &Option<String>, b: &Option<String>) -> (r: bool)
    ensures
        r == (opt_string_view(*a) == opt_string_view(*b)),
{
    match (a, b) {
        (Some(x), Some(y)) => *x == *y,
        (None, None) => true,
        _ => false,
    }
}

/// Structural equality of two optional ids.
fn opt_id_eq(a: &Option<u64>, b: &Option<u64>) -> (r: bool)
    ensures
        r == (*a == *b),
{
    match (a, b) {
        (Some(x), Some(y)) => x == y,
        (None, None) => true,
        _ => false,
    }
}

/// A content-equal copy of an optional string.
fn opt_string_dup(o: &Option<String>) -> (r: Option<String>)
    ensures
        opt_string_view(r) == opt_string_view(*o),
{
    match o {
        Some(s) => Some(s.clone()),
        None => None,
    }
}

impl Window {
    /// A copy of the snapshot with the same view.
    pub fn duplicate(&self) -> (r: Window)
        ensures
            r@ == self@,
    {
        Window {
            id: self.id,
            title: opt_string_dup(&self.title),
            app_id: opt_string_dup(&self.app_id),
            workspace_id: self.workspace_id,
            focused: self.focused,
            floating: self.floating,
            urgent: self.urgent,
            x: self.x,
        }
    }

    /// Structural equality: two snapshots are equal iff every field matches.
    pub fn structural_eq(&self, other: &Window) -> (r: bool)
        ensures
            r == (self@ == other@),
    {
        let r = self.id == other.id && opt_string_eq(&self.title, &other.title)
            && opt_string_eq(&self.app_id, &other.app_id)
            && opt_id_eq(&self.workspace_id, &other.workspace_id)
            && self.focused == other.focused && self.floating == other.floating
            && self.urgent == other.urgent && self.x == other.x;
        proof {
            if r {
                assert(self@ == other@);
            }
        }
        r
    }
}

impl Workspace {
    /// A copy of the snapshot with the same view.
    pub fn duplicate(&self) -> (r: Workspace)
        ensures
            r@ == self@,
    {
        Workspace {
            id: self.id,
            name: self.name.clone(),
            output: opt_string_dup(&self.output),
            active: self.active,
            focused: self.focused,
        }
    }
}

} // verus!

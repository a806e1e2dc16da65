//! A window entry: one window snapshot bound to one visual node, with a
//! dirty flag so that visual refresh work is skipped when nothing changed.

use vstd::prelude::*;
use crate::model::Window;
use crate::model::WindowView;

verus! {

/// Mathematical image of a [`WidgetNode`].
pub struct NodeView {
    pub title_text: Seq<char>,
    pub title_visible: bool,
    pub focused_mark: bool,
    pub floating_mark: bool,
    pub urgent_mark: bool,
}

/// The visual node bound to one window entry, as a plain value: label
/// text, label visibility, and the three style marks. A renderer maps
/// this onto concrete toolkit widgets; the node's identity towards the
/// container is the bound window's id.
#[derive(Debug)]
pub struct WidgetNode {
    pub title_text: String,
    pub title_visible: bool,
    pub focused_mark: bool,
    pub floating_mark: bool,
    pub urgent_mark: bool,
}

impl View for WidgetNode {
    type V = NodeView;

    open spec fn view(&self) -> NodeView {
        NodeView {
            title_text: self.title_text@,
            title_visible: self.title_visible,
            focused_mark: self.focused_mark,
            floating_mark: self.floating_mark,
            urgent_mark: self.urgent_mark,
        }
    }
}

/// Title shown for a focused window: its title, or a fixed placeholder
/// when no title is known.
pub open spec fn spec_focused_title(title: Option<Seq<char>>) -> Seq<char> {
    match title {
        Some(t) => t,
        None => "Unknown Title"@,
    }
}

/// The node state that reflects a window snapshot: the title is shown
/// only while the window is focused (an unfocused window's label is
/// cleared and hidden), and each style mark mirrors its state flag.
pub open spec fn spec_rendered(w: WindowView) -> NodeView {
    NodeView {
        title_text: if w.focused {
            spec_focused_title(w.title)
        } else {
            Seq::empty()
        },
        title_visible: w.focused,
        focused_mark: w.focused,
        floating_mark: w.floating,
        urgent_mark: w.urgent,
    }
}

/// Node state of a freshly created entry: the label text is set when the
/// window is focused, everything is made visible, and no style mark is
/// applied yet; the first refresh brings the node fully in step.
pub open spec fn spec_initial_node(w: WindowView) -> NodeView {
    NodeView {
        title_text: if w.focused {
            spec_focused_title(w.title)
        } else {
            Seq::empty()
        },
        title_visible: true,
        focused_mark: false,
        floating_mark: false,
        urgent_mark: false,
    }
}

/// Mathematical image of a [`WindowWidget`].
pub struct WindowWidgetView {
    pub window: WindowView,
    pub widget: NodeView,
    pub dirty: bool,
}

/// Well-formed entry: whenever the dirty flag is clear, the bound visual
/// node reflects the owned snapshot.
pub open spec fn entry_wf(e: WindowWidgetView) -> bool {
    !e.dirty ==> e.widget == spec_rendered(e.window)
}

/// Effect of a refresh: a dirty entry's node is re-rendered from its
/// snapshot, a clean entry's node is left alone; the flag ends clear.
pub open spec fn spec_refreshed(e: WindowWidgetView) -> WindowWidgetView {
    WindowWidgetView {
        window: e.window,
        widget: if e.dirty {
            spec_rendered(e.window)
        } else {
            e.widget
        },
        dirty: false,
    }
}

/// One reconciled view node bound to one window entity.
#[derive(Debug)]
pub struct WindowWidget {
    pub window: Window,
    pub widget: WidgetNode,
    pub dirty: bool,
}

impl View for WindowWidget {
    type V = WindowWidgetView;

    open spec fn view(&self) -> WindowWidgetView {
        WindowWidgetView {
            window: self.window@,
            widget: self.widget@,
            dirty: self.dirty,
        }
    }
}

/// Builds the title label text for a snapshot as the rendered node shows it.
fn focused_title_text(window: &Window) -> (r: String)
    ensures
        r@ == (if window@.focused {
            spec_focused_title(window@.title)
        } else {
            Seq::<char>::empty()
        }),
{
    if window.focused {
        match &window.title {
            Some(t) => t.clone(),
            None => "Unknown Title".to_owned(),
        }
    } else {
        String::new()
    }
}

impl WindowWidget {
    /// Creates an entry bound to a fresh visual node for this snapshot.
    /// The node's identity is the window's id; the entry starts dirty so
    /// the first refresh renders it. Icon lookup for the application
    /// identifier is the renderer's concern and happens outside the core.
    pub fn new(window: Window) -> (r: WindowWidget)
        ensures
            r@.window == window@,
            r@.widget == spec_initial_node(window@),
            r@.dirty,
    {
        let title_text = focused_title_text(&window);
        WindowWidget {
            window,
            widget: WidgetNode {
                title_text,
                title_visible: true,
                focused_mark: false,
                floating_mark: false,
                urgent_mark: false,
            },
            dirty: true,
        }
    }

    /// Replaces the owned snapshot iff the new one differs structurally,
    /// marking the entry dirty on replacement; an equal snapshot is a
    /// complete no-op and reports no change.
    pub fn update_data(&mut self, window: Window) -> (changed: bool)
        ensures
            changed == (old(self)@.window != window@),
            changed ==> final(self)@ == (WindowWidgetView {
                window: window@,
                widget: old(self)@.widget,
                dirty: true,
            }),
            !changed ==> *final(self) == *old(self),
    {
        if !self.window.structural_eq(&window) {
            self.window = window;
            self.dirty = true;
            true
        } else {
            false
        }
    }

    /// Refreshes the visual node from the owned snapshot when dirty, and
    /// does nothing otherwise; the dirty flag is clear afterwards.
    pub fn update_view(&mut self)
        ensures
            final(self)@ == spec_refreshed(old(self)@),
            final(self).window == old(self).window,
    {
        if self.dirty {
            let title_text = focused_title_text(&self.window);
            self.widget = WidgetNode {
                title_text,
                title_visible: self.window.focused,
                focused_mark: self.window.focused,
                floating_mark: self.window.floating,
                urgent_mark: self.window.urgent,
            };
            self.dirty = false;
        }
    }
}

/// A refresh keeps an entry well-formed.
pub proof fn lemma_refresh_wf(e: WindowWidgetView)
    requires
        entry_wf(e),
    ensures
        entry_wf(spec_refreshed(e)),
{
}

/// Refreshing is idempotent: with no data update in between, a second
/// refresh leaves the entry exactly as the first one did.
pub proof fn lemma_refresh_idempotent(e: WindowWidgetView)
    ensures
        spec_refreshed(spec_refreshed(e)) == spec_refreshed(e),
{
}

} // verus!

//! Incremental view reconciliation for a status-bar applet.
//!
//! The library keeps a per-output set of window and workspace entries in
//! step with a stream of upsert and delete events from a window manager,
//! and computes the minimal visual changes a renderer has to apply.
//! Visual nodes are modelled as plain values: a renderer maps them onto a
//! concrete toolkit outside this crate.

pub mod laws;
pub mod model;
pub mod order;
pub mod text;
pub mod window_container;
pub mod window_widget;
pub mod workspace_container;
pub mod workspace_widget;

pub use model::Window;
pub use model::Workspace;
pub use window_container::WindowContainer;
pub use window_widget::WindowWidget;
pub use workspace_container::WorkspaceContainer;
pub use workspace_widget::WorkspaceWidget;

//! Navigation engine of a pointer-driven radial ("pie") menu.
//!
//! The crate holds the parts of the menu that can be reasoned about without a
//! display: the menu tree, the geometry that maps a pointer position to a menu
//! entry, the navigation state machine, and the reading of an action's command
//! string as the steps an executor has to perform. Every function is verified
//! against its contract; drawing, windowing and process spawning are left to
//! the host program.
//!
//! A host feeds pointer events and toggle requests to a
//! [`navigation::NavigationState`], one at a time. A click answers with the
//! action to dispatch, if any; [`dispatch::plan`] says what to run for it.

/// What to run for an action's command.
pub mod dispatch;
/// Points, squared distances, hit-testing.
pub mod geometry;
/// The toggle token and the command-line mode.
pub mod interface;
/// The menu tree.
pub mod menu;
/// The navigation state machine.
pub mod navigation;
/// Comparing and splitting text.
pub mod text;

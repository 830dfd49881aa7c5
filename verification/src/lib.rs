//! A terminal chat client core: a dialogue state machine over a static
//! conversation graph, a typing animation for bot turns, and a layout
//! engine that wraps and scrolls the transcript inside a viewport.
pub mod dialogue;
pub mod graph;
pub mod layout;
pub mod message;
pub mod session;
pub mod text;

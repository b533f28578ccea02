//! Renders a parsed wiki article (a tree of nodes) as markdown text, reporting
//! whether every node in it could be rendered.
pub mod link;
pub mod node;
pub mod render;
pub mod laws;

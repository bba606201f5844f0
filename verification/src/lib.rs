//! A live directory-tree viewer's verified core: a shared, append-only tree
//! model with a rendering projection, a depth-first walker that populates it
//! in pre-order, the render loop's control state machine, and the search
//! filter over the walker's flattened path list. The filesystem and terminal
//! themselves stay outside; the library states and proves what is recorded,
//! in what order, and how the loop always restores the terminal before it
//! ends.

pub mod model;
pub mod render;
pub mod search;
pub mod walker;


pub mod laws;
pub mod parse;
pub mod layout;
pub mod model;
pub mod readback;



pub use layout::layout_graph;
pub use model::{BranchFilter, CommitNode, GraphRow};

pub use parse::parse_log;

//! Workspace engine of a terminal markdown editor: side-by-side splits of
//! tabs, each tab an independent view of a document, with the bookkeeping
//! that keeps views of the same file in step.

pub mod buffer;
pub mod doc_type;
pub mod editor_file;
pub mod fs_tree;
pub mod fsys;
pub mod paths;
pub mod session;
pub mod split_tab;
pub mod laws;
pub mod link;

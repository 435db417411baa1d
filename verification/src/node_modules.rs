//! The record of one discovered `node_modules` directory: its path and, once
//! measured, its total size in bytes.

use vstd::prelude::*;

verus! {

/// Mathematical view of a record: the path as a sequence of component names
/// (each a sequence of characters) and the optional measured size.
pub ghost struct NodeModulesV {
    pub path: Seq<Seq<char>>,
    pub size: Option<u64>,
}

/// One discovered `node_modules` directory. `path` is the directory's path as
/// a list of components from the root of the scanned tree; `size` is absent
/// until the size aggregation has run for this record, and `None` is distinct
/// from `Some(0)`.
#[derive(Debug)]
pub struct NodeModules {
    pub path: Vec<String>,
    pub size: Option<u64>,
}

impl View for NodeModules {
    type V = NodeModulesV;

    open spec fn view(&self) -> NodeModulesV {
        NodeModulesV { path: self.path.deep_view(), size: self.size }
    }
}

/// The size a record contributes where one is needed even when none was
/// measured: an unset size counts as zero.
pub open spec fn size_or_zero(r: NodeModulesV) -> u64 {
    match r.size {
        Some(s) => s,
        None => 0u64,
    }
}

impl NodeModules {
    /// A fresh record for a just-discovered directory: the size is unset.
    pub fn new(path: Vec<String>) -> (r: NodeModules)
        ensures
            r@.path == path.deep_view(),
            r@.size is None,
    {
        NodeModules { path, size: None }
    }

    /// The record's size, an unset size counting as zero.
    pub fn size_bytes(&self) -> (r: u64)
        ensures
            r == size_or_zero(self@),
    {
        match self.size {
            Some(s) => s,
            None => 0u64,
        }
    }
}

} // verus!

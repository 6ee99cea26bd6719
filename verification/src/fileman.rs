//! File layout of a store: where each collection's data lives under the
//! data directory. The paths are computed here; the surrounding binary
//! creates directories and moves bytes.

use vstd::prelude::*;

verus! {

/// Names the places of a store's files under one data directory.
pub struct FileManager {
    /// Base directory for all data files.
    pub data_dir: String,
}

impl FileManager {
    /// Creates a manager for a data directory. The caller creates the
    /// directory itself.
    pub fn new(data_dir: &str) -> (r: Self)
        ensures
            r.data_dir@ == data_dir@,
    {
        FileManager { data_dir: data_dir.to_owned() }
    }

    /// The directory of one collection's files.
    pub fn collection_path(&self, collection_name: &str) -> (r: String)
        ensures
            r@ == self.data_dir@ + "/"@ + collection_name@,
    {
        let mut p = self.data_dir.clone();
        p.append("/");
        p.append(collection_name);
        p
    }
}

} // verus!

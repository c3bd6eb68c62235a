//! Where the package manager keeps its files.

use vstd::prelude::*;
use crate::text::{join_path, path_join};

verus! {

/// The directories that one run of the package manager works with.
#[derive(Debug)]
pub struct Layout {
    /// The persistent root: configuration, metadata store and recipes.
    pub root: String,
    /// The transient build workspace.
    pub work: String,
    /// The transient staging root.
    pub staging: String,
}

/// The URL of the metadata store below `root`.
pub open spec fn database_url_text(root: Seq<char>) -> Seq<char> {
    "sqlite://"@ + root + "/metadata.db?mode=rwc"@
}

impl Default for Layout {
    fn default() -> (r: Self)
        ensures
            r.root@ == "/var/lib/raven"@,
            r.work@ == "/tmp/raven_build"@,
            r.staging@ == "/tmp/raven_stage"@,
    {
        Layout {
            root: "/var/lib/raven".to_owned(),
            work: "/tmp/raven_build".to_owned(),
            staging: "/tmp/raven_stage".to_owned(),
        }
    }
}

impl Layout {
    /// The URL under which the metadata store is opened, and created where
    /// it does not exist.
    pub fn database_url(&self) -> (r: String)
        ensures
            r@ == database_url_text(self.root@),
    {
        let mut url = "sqlite://".to_owned();
        url.append(self.root.as_str());
        url.append("/metadata.db?mode=rwc");
        url
    }

    /// The directory of the recipe tree.
    pub fn recipes_dir(&self) -> (r: String)
        ensures
            r@ == join_path(self.root@, "recipes"@),
    {
        path_join(self.root.as_str(), "recipes")
    }
}

} // verus!

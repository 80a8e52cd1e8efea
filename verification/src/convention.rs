//! The conventional directory layout of a project, derived from its
//! root path. Paths are plain strings here; the embedding turns them
//! into operating-system paths at its edge.

use vstd::prelude::*;
use vstd::string::StringExecFns;

verus! {

/// The conventional directories of a project.
#[derive(Debug)]
pub struct Convention {
    pub root_dir: String,
    pub components_dir: String,
    pub processors_dir: String,
    pub scripts_dir: String,
}

impl Convention {
    /// Lays the conventional directories out under a root path.
    pub fn create(root: String) -> (r: Convention)
        ensures
            r.root_dir@ == root@,
            r.components_dir@ == root@ + "/"@ + "components"@,
            r.processors_dir@ == root@ + "/"@ + "processors"@,
            r.scripts_dir@ == root@ + "/"@ + "scripts"@,
    {
        let components_dir = join_path(&root, "components");
        let processors_dir = join_path(&root, "processors");
        let scripts_dir = join_path(&root, "scripts");
        Convention { root_dir: root, components_dir, processors_dir, scripts_dir }
    }
}

/// Appends one path component below a base path.
fn join_path(base: &String, child: &str) -> (r: String)
    ensures
        r@ == base@ + "/"@ + child@,
{
    let mut r = base.clone();
    r.append("/");
    r.append(child);
    r
}

} // verus!

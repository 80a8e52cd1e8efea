//! The engine's bootstrap surface: a builder takes the project root and
//! yields a runner holding its settings. The run loop itself belongs to
//! the scripting embedding, outside this crate.

use vstd::prelude::*;

use crate::convention::Convention;

verus! {

/// What the runner starts from: the project root path.
pub struct RunnerSettings {
    pub root: String,
}

impl RunnerSettings {
    pub fn create(root: String) -> (r: RunnerSettings)
        ensures
            r.root@ == root@,
    {
        RunnerSettings { root }
    }
}

/// A configured engine instance, ready to be run by the embedding.
pub struct Runner {
    pub settings: RunnerSettings,
}

impl Runner {
    /// The conventional layout the runner will work in.
    pub fn convention(self) -> (r: Convention)
        ensures
            r.root_dir@ == self.settings.root@,
    {
        Convention::create(self.settings.root)
    }
}

/// Builds a runner from a project root path.
pub struct Builder {
    pub root: String,
}

impl Builder {
    pub fn create(root: String) -> (r: Builder)
        ensures
            r.root@ == root@,
    {
        Builder { root }
    }

    pub fn build(self) -> (r: Runner)
        ensures
            r.settings.root@ == self.root@,
    {
        Runner { settings: RunnerSettings::create(self.root) }
    }
}

} // verus!

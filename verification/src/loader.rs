//! The module loader: holds the working directory and, once a bundling
//! run has finished, the bundled runtime text.
//!
//! Reading the configuration file and walking the filesystem belong to
//! the caller; it drives a bundling session and stores the resulting
//! bundle here, where the script runtime picks it up.

use vstd::prelude::*;

verus! {

/// Owns the working directory and the bundled runtime produced from it.
pub struct ModuleLoader {
    work_dir: String,
    bundled_runtime: Option<String>,
}

impl ModuleLoader {
    /// The working directory the loader was created for.
    pub closed spec fn work_dir_view(&self) -> Seq<char> {
        self.work_dir@
    }

    /// The stored bundle text, if a bundling run has finished.
    pub closed spec fn runtime_view(&self) -> Option<Seq<char>> {
        match self.bundled_runtime {
            Some(b) => Some(b@),
            None => None,
        }
    }

    /// A loader for the given working directory, with no bundle yet.
    pub fn new(work_dir: &str) -> (r: ModuleLoader)
        ensures
            r.work_dir_view() == work_dir@,
            r.runtime_view() is None,
    {
        ModuleLoader { work_dir: work_dir.to_owned(), bundled_runtime: None }
    }

    /// The working directory, for driving a bundling run.
    pub fn work_dir(&self) -> (r: &str)
        ensures
            r@ == self.work_dir_view(),
    {
        self.work_dir.as_str()
    }

    /// Stores the bundle produced by a finished bundling run.
    pub fn store_bundle(&mut self, bundle: String)
        ensures
            final(self).work_dir_view() == old(self).work_dir_view(),
            final(self).runtime_view() == Some(bundle@),
    {
        self.bundled_runtime = Some(bundle);
    }

    /// The bundled runtime code, if any.
    pub fn get_bundled_runtime(&self) -> (r: Option<&str>)
        ensures
            match r {
                Some(b) => self.runtime_view() == Some(b@),
                None => self.runtime_view() is None,
            },
    {
        match &self.bundled_runtime {
            Some(b) => Some(b.as_str()),
            None => None,
        }
    }
}

} // verus!

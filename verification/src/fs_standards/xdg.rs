//! The XDG base directories around a fixture: one directory for each kind of
//! file (data, state, cache, config, runtime), and in each a directory for
//! the application.

use vstd::prelude::*;
use crate::disk::TempFixture;
use crate::text::{join_path, path_join};

verus! {

/// The directory of the application `app_name` in the directory `category`
/// below `root`.
pub open spec fn app_dir(root: Seq<char>, category: Seq<char>, app_name: Seq<char>) -> Seq<char> {
    path_join(path_join(root, category), app_name)
}

/// One environment variable: the model of a pair of name and value.
pub struct EnvSpec {
    pub name: Seq<char>,
    pub value: Seq<char>,
}

/// The environment that points an application at the directories below
/// `root`. Each variable names the directory of a kind, not the
/// application's directory in it: the application adds its own name.
pub open spec fn xdg_env(root: Seq<char>) -> Seq<EnvSpec> {
    seq![
        EnvSpec { name: "XDG_DATA_HOME"@, value: path_join(root, "data"@) },
        EnvSpec { name: "XDG_STATE_HOME"@, value: path_join(root, "state"@) },
        EnvSpec { name: "XDG_CACHE_HOME"@, value: path_join(root, "cache"@) },
        EnvSpec { name: "XDG_CONFIG_HOME"@, value: path_join(root, "config"@) },
        EnvSpec { name: "XDG_RUNTIME_DIR"@, value: path_join(root, "runtime"@) },
    ]
}

/// The models of `pairs`, in order.
pub open spec fn env_view(pairs: Seq<(String, String)>) -> Seq<EnvSpec> {
    Seq::new(pairs.len(), |i: int| EnvSpec { name: pairs[i].0@, value: pairs[i].1@ })
}

/// A fixture seen as the XDG directories of one application.
pub struct Xdg {
    /// The fixture and its root.
    pub inner: TempFixture,
    /// The name of the application's directory in each base directory.
    pub app_name: String,
}

impl Xdg {
    /// The XDG view of `inner` for the application `app_name`.
    pub fn new(inner: TempFixture, app_name: &str) -> (xdg: Xdg)
        ensures
            xdg.inner == inner,
            xdg.app_name@ == app_name@,
    {
        Xdg { inner, app_name: app_name.to_owned() }
    }

    /// The application's directory in the base directory `category`.
    fn dir(&self, category: &str) -> (dir: String)
        ensures
            dir@ == app_dir(self.inner@.root, category@, self.app_name@),
    {
        let base = join_path(self.inner.root(), category);
        join_path(base.as_str(), self.app_name.as_str())
    }

    /// Where the application keeps its data.
    pub fn data_dir(&self) -> (dir: String)
        ensures
            dir@ == app_dir(self.inner@.root, "data"@, self.app_name@),
    {
        self.dir("data")
    }

    /// Where the application keeps its state.
    pub fn state_dir(&self) -> (dir: String)
        ensures
            dir@ == app_dir(self.inner@.root, "state"@, self.app_name@),
    {
        self.dir("state")
    }

    /// Where the application keeps what it can compute again.
    pub fn cache_dir(&self) -> (dir: String)
        ensures
            dir@ == app_dir(self.inner@.root, "cache"@, self.app_name@),
    {
        self.dir("cache")
    }

    /// Where the application keeps its settings.
    pub fn config_dir(&self) -> (dir: String)
        ensures
            dir@ == app_dir(self.inner@.root, "config"@, self.app_name@),
    {
        self.dir("config")
    }

    /// Where the application keeps what lasts for a session.
    pub fn runtime_dir(&self) -> (dir: String)
        ensures
            dir@ == app_dir(self.inner@.root, "runtime"@, self.app_name@),
    {
        self.dir("runtime")
    }

    /// The environment variable `name`, set to the base directory `category`.
    fn variable(&self, name: &str, category: &str) -> (pair: (String, String))
        ensures
            pair.0@ == name@,
            pair.1@ == path_join(self.inner@.root, category@),
    {
        (name.to_owned(), join_path(self.inner.root(), category))
    }

    /// The environment for a process that is to find its files in the
    /// fixture: the five variables of the XDG base directories.
    pub fn env_vars(&self) -> (vars: Vec<(String, String)>)
        ensures
            env_view(vars@) == xdg_env(self.inner@.root),
    {
        let mut vars: Vec<(String, String)> = Vec::new();
        vars.push(self.variable("XDG_DATA_HOME", "data"));
        vars.push(self.variable("XDG_STATE_HOME", "state"));
        vars.push(self.variable("XDG_CACHE_HOME", "cache"));
        vars.push(self.variable("XDG_CONFIG_HOME", "config"));
        vars.push(self.variable("XDG_RUNTIME_DIR", "runtime"));
        proof {
            assert(env_view(vars@) == xdg_env(self.inner@.root));
        }
        vars
    }
}

} // verus!

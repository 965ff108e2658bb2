//! The directories that the program works in.

use vstd::prelude::*;
use vstd::string::*;
use crate::manifest::Config;
use crate::text::{chars_of, join, join_paths};

verus! {

/// What the environment says about the user's directories.
#[derive(Debug)]
pub struct Environment {
    /// The user's home directory.
    pub home: String,
    /// The directory for data files, where the environment names one.
    pub data_home: Option<String>,
    /// The directory for cache files, where the environment names one.
    pub cache_home: Option<String>,
}

/// The directory that holds `path`: what stands before its last separator,
/// the root for a path directly below it, nothing for a path without one.
pub open spec fn parent_of(path: Seq<char>) -> Seq<char>
    decreases path.len(),
{
    if path.len() == 0 {
        path
    } else if path.last() == '/' {
        if path.len() == 1 {
            path
        } else {
            path.drop_last()
        }
    } else {
        parent_of(path.drop_last())
    }
}

/// The directory that holds `path`.
pub fn parent(path: &str) -> (r: String)
    ensures
        r@ == parent_of(path@),
{
    let chars = chars_of(path);
    let mut n: usize = chars.len();
    assert(path@.take(path@.len() as int) =~= path@);
    while n > 0 && chars[n - 1] != '/'
        invariant
            n <= chars.len(),
            chars@ == path@,
            parent_of(path@) == parent_of(path@.take(n as int)),
        decreases n,
    {
        assert(path@.take(n as int).drop_last() =~= path@.take(n - 1));
        n -= 1;
    }
    proof {
        if n > 1 {
            assert(path@.take(n as int).drop_last() =~= path@.take(n - 1));
        }
    }
    if n > 1 {
        String::from_str(path.substring_char(0, n - 1))
    } else {
        String::from_str(path.substring_char(0, n))
    }
}

/// The name of the directory that the program keeps below the data and cache
/// directories.
pub open spec fn program_name() -> Seq<char> {
    seq!['c', 'u', 'p']
}

/// A directory that the program works in.
#[derive(Debug)]
pub enum Directories<'a> {
    /// The user's home directory.
    Home,
    /// Where the collections are kept.
    Data,
    /// Where what can be made again is kept.
    Cache,
    /// The root of the filesystem.
    Root,
    /// The archive of a collection, beside its manifest document.
    Files(&'a Config),
}

/// The path of the data directory: the one that the environment names, else
/// `.local/share/cup` below the home directory.
pub open spec fn data_dir(home: Seq<char>, named: Option<Seq<char>>) -> Seq<char> {
    match named {
        Some(dir) => dir,
        None => join(join(home, seq!['.', 'l', 'o', 'c', 'a', 'l', '/', 's', 'h', 'a', 'r', 'e']), program_name()),
    }
}

/// The path of the cache directory: the one that the environment names, else
/// `.cache/cup` below the home directory.
pub open spec fn cache_dir(home: Seq<char>, named: Option<Seq<char>>) -> Seq<char> {
    match named {
        Some(dir) => dir,
        None => join(join(home, seq!['.', 'c', 'a', 'c', 'h', 'e']), program_name()),
    }
}

/// The path of the archive of the collection whose manifest document lies at
/// `manifest`: `files` beside the document.
pub open spec fn files_dir(manifest: Seq<char>) -> Seq<char> {
    join(parent_of(manifest), seq!['f', 'i', 'l', 'e', 's'])
}

/// The view of an optional text.
pub open spec fn text_of(named: Option<String>) -> Option<Seq<char>> {
    match named {
        Some(dir) => Some(dir@),
        None => None,
    }
}

impl<'a> Directories<'a> {
    /// The path of the directory, read off the environment.
    pub open spec fn path_in(self, home: Seq<char>, data: Option<Seq<char>>, cache: Option<Seq<char>>) -> Seq<char> {
        match self {
            Directories::Home => home,
            Directories::Root => seq!['/'],
            Directories::Data => data_dir(home, data),
            Directories::Cache => cache_dir(home, cache),
            Directories::Files(config) => files_dir(config@.path),
        }
    }

    /// The path of the directory.
    pub fn path(&self, env: &Environment) -> (r: String)
        ensures
            r@ == self.path_in(env.home@, text_of(env.data_home), text_of(env.cache_home)),
    {
        proof {
            reveal_strlit("/");
            reveal_strlit(".local/share");
            reveal_strlit(".cache");
            reveal_strlit("cup");
            reveal_strlit("files");
            assert("/"@ =~= seq!['/']);
            assert(".local/share"@ =~= seq!['.', 'l', 'o', 'c', 'a', 'l', '/', 's', 'h', 'a', 'r', 'e']);
            assert(".cache"@ =~= seq!['.', 'c', 'a', 'c', 'h', 'e']);
            assert("cup"@ =~= program_name());
            assert("files"@ =~= seq!['f', 'i', 'l', 'e', 's']);
        }
        match self {
            Directories::Home => env.home.clone(),
            Directories::Root => String::from_str("/"),
            Directories::Data => match &env.data_home {
                Some(dir) => dir.clone(),
                None => {
                    let share = join_paths(env.home.as_str(), ".local/share");
                    join_paths(share.as_str(), "cup")
                },
            },
            Directories::Cache => match &env.cache_home {
                Some(dir) => dir.clone(),
                None => {
                    let cache = join_paths(env.home.as_str(), ".cache");
                    join_paths(cache.as_str(), "cup")
                },
            },
            Directories::Files(config) => {
                let dir = parent(config.path.as_str());
                join_paths(dir.as_str(), "files")
            },
        }
    }

    /// The path of `path` below the directory.
    pub fn join(&self, env: &Environment, path: &str) -> (r: String)
        ensures
            r@ == join(
                self.path_in(env.home@, text_of(env.data_home), text_of(env.cache_home)),
                path@,
            ),
    {
        let base = self.path(env);
        join_paths(base.as_str(), path)
    }
}

} // verus!

//! Bringing the files of a collection from its archive to their places on the
//! real filesystem.

use vstd::prelude::*;
use vstd::string::*;
use crate::address::Address;
use crate::directories::{files_dir, parent, parent_of};
use crate::manifest::Config;
use crate::text::{join, join_paths};

verus! {

/// The mathematical value of a [`Transfer`].
pub struct Move {
    pub from: Seq<char>,
    pub to: Seq<char>,
    pub backup: Option<Seq<char>>,
}

/// One file to bring to its place.
#[derive(Debug, PartialEq, Eq)]
pub struct Transfer {
    /// The file in the archive.
    pub from: String,
    /// Its place on the real filesystem.
    pub to: String,
    /// Where to copy what lies at that place first, if it is to be kept.
    pub backup: Option<String>,
}

impl View for Transfer {
    type V = Move;

    open spec fn view(&self) -> Move {
        Move {
            from: self.from@,
            to: self.to@,
            backup: match self.backup {
                Some(path) => Some(path@),
                None => None,
            },
        }
    }
}

/// The moves that a list of transfers holds, in order.
pub open spec fn moves(list: Seq<Transfer>) -> Seq<Move> {
    list.map_values(|t: Transfer| t@)
}

/// Where the file that lies at the place of `address` is kept: beside that
/// place, under the relative path of the address with `.bcup` behind it.
pub open spec fn backup_of(address: Address, home: Seq<char>, root: Seq<char>) -> Seq<char> {
    join(parent_of(address.real_path(home, root)), address.relative() + ".bcup"@)
}

/// How the file of `address` comes to its place, from the archive beside the
/// manifest document at `manifest`. What lies at the place is kept when it
/// is there and must not be overwritten.
pub open spec fn move_of(
    address: Address,
    manifest: Seq<char>,
    home: Seq<char>,
    root: Seq<char>,
    keep: bool,
) -> Move {
    Move {
        from: join(files_dir(manifest), address.archive_path()),
        to: address.real_path(home, root),
        backup: if keep {
            Some(backup_of(address, home, root))
        } else {
            None
        },
    }
}

/// `true` when a file lies at place `i` already, going by `present`; a place
/// without an entry is taken as free.
pub open spec fn occupied(present: Seq<bool>, i: int) -> bool {
    0 <= i < present.len() && present[i]
}

impl Config {
    /// How the tracked files come to their places on the real filesystem,
    /// one transfer for each, in the order of the manifest. `present` says for
    /// each tracked file whether something lies at its place already; that is
    /// kept in a backup unless `overwrite` is set.
    pub fn import_plan(&self, home: &str, root: &str, overwrite: bool, present: &[bool]) -> (r: Vec<
        Transfer,
    >)
        ensures
            r@.len() == self@.files.len(),
            forall|i: int|
                0 <= i < r@.len() ==> #[trigger] moves(r@)[i] == move_of(
                    self@.files[i],
                    self@.path,
                    home@,
                    root@,
                    !overwrite && occupied(present@, i),
                ),
    {
        let mut out: Vec<Transfer> = Vec::new();
        let dir = parent(self.path.as_str());
        let archive = join_paths(dir.as_str(), "files");
        proof {
            reveal_strlit("files");
            assert("files"@ =~= seq!['f', 'i', 'l', 'e', 's']);
        }
        let mut i: usize = 0;
        while i < self.files.len()
            invariant
                i <= self.files.len(),
                out@.len() == i,
                archive@ == files_dir(self@.path),
                forall|k: int|
                    0 <= k < i ==> #[trigger] moves(out@)[k] == move_of(
                        self@.files[k],
                        self@.path,
                        home@,
                        root@,
                        !overwrite && occupied(present@, k),
                    ),
            decreases self.files.len() - i,
        {
            let file = &self.files[i];
            let ghost before = moves(out@);
            let from = join_paths(archive.as_str(), file.to_string().as_str());
            let to = file.stored_path(home, root);
            let backup = if !overwrite && i < present.len() && present[i] {
                let beside = parent(to.as_str());
                let mut name = file.name().clone();
                name.append(".bcup");
                Some(join_paths(beside.as_str(), name.as_str()))
            } else {
                None
            };
            out.push(Transfer { from, to, backup });
            proof {
                assert(moves(out@) =~= before.push(out@[i as int]@));
                assert forall|k: int| 0 <= k < i + 1 implies #[trigger] moves(out@)[k] == move_of(
                    self@.files[k],
                    self@.path,
                    home@,
                    root@,
                    !overwrite && occupied(present@, k),
                ) by {
                    if k < i {
                        assert(moves(out@)[k] == before[k]);
                    }
                }
            }
            i += 1;
        }
        out
    }
}

} // verus!

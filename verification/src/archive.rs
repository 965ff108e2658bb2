//! Reconciling the archive with the manifest: which tracked files the archive
//! lacks, which archive files nothing tracks, and the steps that mend both.

use vstd::prelude::*;
use vstd::string::*;
use crate::address::{parse_archive_path, Address, File};
use crate::error::Error;
use crate::manifest::{addresses, Config};

verus! {

/// The paths that a listing holds, in order.
pub open spec fn paths(listing: Seq<String>) -> Seq<Seq<char>> {
    listing.map_values(|s: String| s@)
}

/// Holds of an address whose file the archive lacks.
pub open spec fn not_archived(archive: Seq<Seq<char>>) -> spec_fn(Address) -> bool {
    |a: Address| !archive.contains(a.archive_path())
}

/// Holds of an address that the manifest does not track.
pub open spec fn not_tracked(files: Seq<Address>) -> spec_fn(Address) -> bool {
    |a: Address| !files.contains(a)
}

/// The tracked addresses whose archive path is not in the archive, in the
/// order of the manifest.
pub open spec fn missing(files: Seq<Address>, archive: Seq<Seq<char>>) -> Seq<Address> {
    files.filter(not_archived(archive))
}

/// `true` when every path of the archive names an address.
pub open spec fn well_formed(archive: Seq<Seq<char>>) -> bool {
    forall|i: int| 0 <= i < archive.len() ==> parse_archive_path(#[trigger] archive[i]) is Some
}

/// The addresses that the paths of a well-formed archive stand for.
pub open spec fn archived(archive: Seq<Seq<char>>) -> Seq<Address> {
    archive.map_values(|p: Seq<char>| parse_archive_path(p)->Some_0)
}

/// The addresses of the archive files that the manifest does not track, in the
/// order of the archive.
pub open spec fn orphans(files: Seq<Address>, archive: Seq<Seq<char>>) -> Seq<Address> {
    archived(archive).filter(not_tracked(files))
}

/// Whether `path` is one of `listing`.
pub fn lists(listing: &[String], path: &String) -> (r: bool)
    ensures
        r == paths(listing@).contains(path@),
{
    let mut i: usize = 0;
    while i < listing.len()
        invariant
            i <= listing.len(),
            forall|j: int| 0 <= j < i ==> paths(listing@)[j] != path@,
        decreases listing.len() - i,
    {
        if listing[i] == *path {
            assert(paths(listing@)[i as int] == path@);
            return true;
        }
        i += 1;
    }
    false
}

impl Config {
    /// The tracked files that the archive lacks. `archive` lists the files
    /// that the archive holds, by their paths relative to its root.
    pub fn missing_files(&self, archive: &[String]) -> (r: Vec<File>)
        ensures
            addresses(r@) == missing(self@.files, paths(archive@)),
    {
        let mut out: Vec<File> = Vec::new();
        let mut i: usize = 0;
        let ghost files = self@.files;
        let ghost pred = not_archived(paths(archive@));
        proof {
            reveal(Seq::filter);
            assert(files.take(0) =~= Seq::<Address>::empty());
            assert(addresses(out@) =~= Seq::<Address>::empty());
        }
        while i < self.files.len()
            invariant
                i <= self.files.len(),
                files == self@.files,
                pred == not_archived(paths(archive@)),
                addresses(out@) == files.take(i as int).filter(pred),
            decreases self.files.len() - i,
        {
            let path = self.files[i].to_string();
            let ghost before = addresses(out@);
            proof {
                assert(files.take(i + 1) =~= files.take(i as int).push(files[i as int]));
                files.take(i as int).lemma_filter_push(files[i as int], pred);
            }
            if !lists(archive, &path) {
                out.push(self.files[i].clone());
                assert(addresses(out@) =~= before.push(files[i as int]));
            }
            i += 1;
        }
        assert(files.take(files.len() as int) =~= files);
        out
    }

    /// The archive files that nothing tracks, as addresses. `archive` lists
    /// the files that the archive holds, by their paths relative to its root;
    /// the first of them that names no address is answered with
    /// `MalformedArchivePath`.
    pub fn lost_files(&self, archive: &[String]) -> (r: Result<Vec<File>, Error>)
        ensures
            match r {
                Ok(lost) => well_formed(paths(archive@)) && addresses(lost@) == orphans(
                    self@.files,
                    paths(archive@),
                ),
                Err(Error::MalformedArchivePath(p)) => exists|i: int|
                    0 <= i < archive@.len() && #[trigger] paths(archive@)[i] == p@
                        && parse_archive_path(p@) is None && well_formed(paths(archive@).take(i)),
                Err(_) => false,
            },
    {
        let mut out: Vec<File> = Vec::new();
        let mut i: usize = 0;
        let ghost listing = paths(archive@);
        let ghost pred = not_tracked(self@.files);
        proof {
            reveal(Seq::filter);
            assert(archived(listing.take(0)) =~= Seq::<Address>::empty());
            assert(addresses(out@) =~= Seq::<Address>::empty());
        }
        while i < archive.len()
            invariant
                i <= archive.len(),
                listing == paths(archive@),
                pred == not_tracked(self@.files),
                well_formed(listing.take(i as int)),
                addresses(out@) == archived(listing.take(i as int)).filter(pred),
            decreases archive.len() - i,
        {
            let ghost before = addresses(out@);
            match File::from_archive_path(archive[i].as_str()) {
                Ok(file) => {
                    proof {
                        assert(listing[i as int] == archive@[i as int]@);
                        assert(listing.take(i + 1) =~= listing.take(i as int).push(listing[i as int]));
                        assert(archived(listing.take(i + 1)) =~= archived(
                            listing.take(i as int),
                        ).push(file@));
                        archived(listing.take(i as int)).lemma_filter_push(file@, pred);
                        assert forall|j: int| 0 <= j < i + 1 implies parse_archive_path(
                            #[trigger] listing.take(i + 1)[j],
                        ) is Some by {
                            if j < i {
                                assert(listing.take(i + 1)[j] == listing.take(i as int)[j]);
                            }
                        }
                    }
                    if !self.contains(&file) {
                        out.push(file);
                        assert(addresses(out@) =~= before.push(file@));
                    }
                },
                Err(e) => {
                    assert(listing[i as int] == archive@[i as int]@);
                    return Err(e);
                },
            }
            i += 1;
        }
        assert(listing.take(listing.len() as int) =~= listing);
        Ok(out)
    }
}

} // verus!

//! The manifest: the list of tracked files with the collection's id and name.

use vstd::prelude::*;
use vstd::string::*;
use crate::address::{lemma_address_order, Address, File};
use crate::error::Error;
use crate::text::{join, join_paths};

verus! {

/// The addresses that a list of files holds, in order.
pub open spec fn addresses(files: Seq<File>) -> Seq<Address> {
    files.map_values(|f: File| f@)
}

/// `files` with one more address at the end, unless it is there already.
pub open spec fn with_address(files: Seq<Address>, address: Address) -> Seq<Address> {
    if files.contains(address) {
        files
    } else {
        files.push(address)
    }
}

/// `files` after each address of `other` was added in turn.
pub open spec fn appended(files: Seq<Address>, other: Seq<Address>) -> Seq<Address>
    decreases other.len(),
{
    if other.len() == 0 {
        files
    } else {
        with_address(appended(files, other.drop_last()), other.last())
    }
}

/// `files` without the first entry that equals `address`: the last entry takes
/// its place. Unchanged when no entry equals it.
pub open spec fn without_address(files: Seq<Address>, address: Address) -> Seq<Address> {
    match files.index_of_first(address) {
        Some(i) => files.update(i, files.last()).drop_last(),
        None => files,
    }
}

/// `files` after each address of `other` was taken out in turn.
pub open spec fn removed(files: Seq<Address>, other: Seq<Address>) -> Seq<Address>
    decreases other.len(),
{
    if other.len() == 0 {
        files
    } else {
        without_address(removed(files, other.drop_last()), other.last())
    }
}

/// Appending never tracks a file twice: a list without repetitions stays
/// one, it keeps what it held, in place, and gains exactly the addresses of
/// `other`.
pub proof fn lemma_appended(files: Seq<Address>, other: Seq<Address>)
    ensures
        files.no_duplicates() ==> appended(files, other).no_duplicates(),
        files.is_prefix_of(appended(files, other)),
        forall|a: Address|
            appended(files, other).contains(a) <==> files.contains(a) || other.contains(a),
    decreases other.len(),
{
    if other.len() > 0 {
        let before = appended(files, other.drop_last());
        let last = other.last();
        lemma_appended(files, other.drop_last());
        let after = with_address(before, last);
        assert forall|a: Address| after.contains(a) <==> files.contains(a) || other.contains(
            a,
        ) by {
            if other.contains(a) {
                let k = choose|k: int| 0 <= k < other.len() && other[k] == a;
                if k < other.len() - 1 {
                    assert(other.drop_last()[k] == a);
                }
            }
            if other.drop_last().contains(a) {
                let k = choose|k: int| 0 <= k < other.drop_last().len() && other.drop_last()[k] == a;
                assert(other[k] == a);
            }
            if before.contains(a) {
                let k = choose|k: int| 0 <= k < before.len() && before[k] == a;
                assert(after[k] == a);
            }
            if !before.contains(last) {
                assert(after[before.len() as int] == last);
                if after.contains(a) && a != last {
                    let k = choose|k: int| 0 <= k < after.len() && after[k] == a;
                    assert(before[k] == a);
                }
            }
            assert(other[other.len() - 1] == last);
        }
    }
}

/// `files` after each list of `batches` was appended in turn.
pub open spec fn appended_all(files: Seq<Address>, batches: Seq<Seq<Address>>) -> Seq<Address>
    decreases batches.len(),
{
    if batches.len() == 0 {
        files
    } else {
        appended(appended_all(files, batches.drop_last()), batches.last())
    }
}

/// No sequence of appends makes a manifest track a file twice, whatever is
/// appended: a manifest without repetitions, such as an empty one, has none
/// after them.
pub proof fn lemma_appends_keep_distinct(files: Seq<Address>, batches: Seq<Seq<Address>>)
    requires
        files.no_duplicates(),
    ensures
        appended_all(files, batches).no_duplicates(),
    decreases batches.len(),
{
    if batches.len() > 0 {
        lemma_appends_keep_distinct(files, batches.drop_last());
        lemma_appended(appended_all(files, batches.drop_last()), batches.last());
    }
}

/// Taking out an address that is not tracked changes nothing.
pub proof fn lemma_remove_absent(files: Seq<Address>, address: Address)
    requires
        !files.contains(address),
    ensures
        removed(files, seq![address]) == files,
{
    let other = seq![address];
    assert(other.drop_last() =~= Seq::<Address>::empty());
    assert(removed(files, other.drop_last()) == files);
    files.index_of_first_ensures(address);
}

/// Taking one address out of a list without repetitions leaves a list without
/// repetitions that holds the same addresses but that one.
pub proof fn lemma_without_address(files: Seq<Address>, address: Address)
    requires
        files.no_duplicates(),
    ensures
        without_address(files, address).no_duplicates(),
        forall|a: Address|
            without_address(files, address).contains(a) <==> files.contains(a) && a != address,
{
    files.index_of_first_ensures(address);
    let after = without_address(files, address);
    match files.index_of_first(address) {
        Some(i) => {
            assert forall|a: Address| after.contains(a) <==> files.contains(a) && a
                != address by {
                if after.contains(a) {
                    let k = choose|k: int| 0 <= k < after.len() && after[k] == a;
                    if k == i {
                        assert(files[files.len() - 1] == a);
                    } else {
                        assert(files[k] == a);
                    }
                }
                if files.contains(a) && a != address {
                    let k = choose|k: int| 0 <= k < files.len() && files[k] == a;
                    if k == files.len() - 1 {
                        assert(after[i] == a);
                    } else {
                        assert(after[k] == a);
                    }
                }
            }
        },
        None => {},
    }
}

/// Removing from a list without repetitions leaves a list without
/// repetitions that holds what was tracked and is not in `other`.
pub proof fn lemma_removed(files: Seq<Address>, other: Seq<Address>)
    requires
        files.no_duplicates(),
    ensures
        removed(files, other).no_duplicates(),
        forall|a: Address|
            removed(files, other).contains(a) <==> files.contains(a) && !other.contains(a),
    decreases other.len(),
{
    if other.len() > 0 {
        let before = removed(files, other.drop_last());
        let last = other.last();
        lemma_removed(files, other.drop_last());
        lemma_without_address(before, last);
        let after = without_address(before, last);
        assert forall|a: Address| after.contains(a) <==> files.contains(a) && !other.contains(
            a,
        ) by {
            assert(other[other.len() - 1] == last);
            if other.contains(a) && a != last {
                let k = choose|k: int| 0 <= k < other.len() && other[k] == a;
                assert(other.drop_last()[k] == a);
            }
            if other.drop_last().contains(a) {
                let k = choose|k: int| 0 <= k < other.drop_last().len() && other.drop_last()[k] == a;
                assert(other[k] == a);
            }
        }
    }
}

/// `true` when each address of `files` comes before all that follow it, so
/// that none occurs twice.
pub open spec fn strictly_ordered(files: Seq<Address>) -> bool {
    forall|i: int, j: int| 0 <= i < j < files.len() ==> files[i].precedes(files[j])
}

/// `true` when both lists hold the same addresses, whatever the order and the
/// number of times.
pub open spec fn same_addresses(a: Seq<Address>, b: Seq<Address>) -> bool {
    forall|x: Address| a.contains(x) <==> b.contains(x)
}

/// A list in strict order has no repetitions.
pub proof fn lemma_ordered_distinct(files: Seq<Address>)
    requires
        strictly_ordered(files),
    ensures
        files.no_duplicates(),
{
    assert forall|i: int, j: int| 0 <= i < files.len() && 0 <= j < files.len() && i != j implies files[i]
        != files[j] by {
        lemma_address_order(files[i], files[j], files[i]);
        if i < j {
            assert(files[i].precedes(files[j]));
        } else {
            assert(files[j].precedes(files[i]));
        }
    }
}

/// Two lists in strict order that hold the same addresses are the same list:
/// the order and the addresses fix what normalising gives.
pub proof fn lemma_ordered_unique(a: Seq<Address>, b: Seq<Address>)
    requires
        strictly_ordered(a),
        strictly_ordered(b),
        same_addresses(a, b),
    ensures
        a == b,
    decreases a.len(),
{
    if a.len() == 0 {
        if b.len() > 0 {
            assert(b.contains(b[0]));
            assert(a.contains(b[0]));
        }
        assert(a =~= b);
    } else {
        let x = a.last();
        assert(a[a.len() - 1] == x);
        assert(a.contains(x));
        assert(b.contains(x));
        let y = b.last();
        assert(b[b.len() - 1] == y);
        assert(b.contains(y));
        assert(a.contains(y));
        let k = choose|k: int| 0 <= k < a.len() && a[k] == y;
        let m = choose|m: int| 0 <= m < b.len() && b[m] == x;
        lemma_address_order(x, y, x);
        if k < a.len() - 1 {
            assert(a[k].precedes(a[a.len() - 1]));
        }
        if m < b.len() - 1 {
            assert(b[m].precedes(b[b.len() - 1]));
        }
        assert(x == y);
        let a0 = a.drop_last();
        let b0 = b.drop_last();
        lemma_ordered_distinct(a);
        lemma_ordered_distinct(b);
        assert forall|z: Address| a0.contains(z) <==> b0.contains(z) by {
            if a0.contains(z) {
                let i = choose|i: int| 0 <= i < a0.len() && a0[i] == z;
                assert(a[i] == z);
                assert(z != x);
                assert(a.contains(z));
                let j = choose|j: int| 0 <= j < b.len() && b[j] == z;
                assert(b0[j] == z);
            }
            if b0.contains(z) {
                let i = choose|i: int| 0 <= i < b0.len() && b0[i] == z;
                assert(b[i] == z);
                assert(z != y);
                assert(b.contains(z));
                let j = choose|j: int| 0 <= j < a.len() && a[j] == z;
                assert(a0[j] == z);
            }
        }
        assert(strictly_ordered(a0)) by {
            assert forall|i: int, j: int| 0 <= i < j < a0.len() implies a0[i].precedes(a0[j]) by {
                assert(a[i].precedes(a[j]));
            }
        }
        assert(strictly_ordered(b0)) by {
            assert forall|i: int, j: int| 0 <= i < j < b0.len() implies b0[i].precedes(b0[j]) by {
                assert(b[i].precedes(b[j]));
            }
        }
        lemma_ordered_unique(a0, b0);
        assert(a =~= a0.push(x));
        assert(b =~= b0.push(y));
    }
}

/// The addresses of `files` at the indices `picks`, in the order of `picks`,
/// without the indices that `files` does not have.
pub open spec fn picked(files: Seq<Address>, picks: Seq<usize>) -> Seq<Address>
    decreases picks.len(),
{
    if picks.len() == 0 {
        Seq::empty()
    } else if picks.last() < files.len() {
        picked(files, picks.drop_last()).push(files[picks.last() as int])
    } else {
        picked(files, picks.drop_last())
    }
}

/// The mathematical value of a [`Config`].
pub struct Manifest {
    pub id: Seq<char>,
    pub name: Seq<char>,
    pub files: Seq<Address>,
    pub path: Seq<char>,
}

/// The tracked files of one collection, with the place of its document.
#[derive(Debug, PartialEq, Eq)]
pub struct Config {
    pub id: String,
    pub name: String,
    pub files: Vec<File>,
    /// Where the manifest document lies; not part of the document.
    pub path: String,
}

impl View for Config {
    type V = Manifest;

    open spec fn view(&self) -> Manifest {
        Manifest { id: self.id@, name: self.name@, files: addresses(self.files@), path: self.path@ }
    }
}

/// The index of the first of `files` that names the same file as `file`.
pub fn position(files: &Vec<File>, file: &File) -> (r: Option<usize>)
    ensures
        match r {
            Some(i) => addresses(files@).index_of_first(file@) == Some(i as int),
            None => addresses(files@).index_of_first(file@) is None,
        },
        r is Some <==> addresses(files@).contains(file@),
{
    let mut i: usize = 0;
    while i < files.len()
        invariant
            i <= files.len(),
            forall|j: int| 0 <= j < i ==> addresses(files@)[j] != file@,
        decreases files.len() - i,
    {
        if files[i].same(file) {
            proof {
                addresses(files@).index_of_first_ensures(file@);
                assert(addresses(files@)[i as int] == file@);
            }
            return Some(i);
        }
        i += 1;
    }
    proof {
        addresses(files@).index_of_first_ensures(file@);
    }
    None
}

/// The files of `files` in the order of addresses, each once.
pub fn ordered(files: &Vec<File>) -> (out: Vec<File>)
    ensures
        strictly_ordered(addresses(out@)),
        same_addresses(addresses(out@), addresses(files@)),
{
    let mut out: Vec<File> = Vec::new();
    let mut i: usize = 0;
    assert(same_addresses(addresses(out@), addresses(files@.take(0)))) by {
        assert(addresses(files@.take(0)) =~= Seq::<Address>::empty());
        assert(addresses(out@) =~= Seq::<Address>::empty());
    }
    while i < files.len()
        invariant
            i <= files.len(),
            strictly_ordered(addresses(out@)),
            same_addresses(addresses(out@), addresses(files@.take(i as int))),
        decreases files.len() - i,
    {
        let file = &files[i];
        let ghost seen = addresses(files@.take(i as int));
        let ghost next = addresses(files@.take(i + 1));
        let ghost before = addresses(out@);
        assert(next =~= seen.push(file@));
        let mut k: usize = 0;
        while k < out.len() && out[k].precedes(file)
            invariant
                k <= out.len(),
                before == addresses(out@),
                forall|j: int| 0 <= j < k ==> before[j].precedes(file@),
            decreases out.len() - k,
        {
            k += 1;
        }
        if k < out.len() && out[k].same(file) {
            assert(before[k as int] == file@);
            assert forall|x: Address| before.contains(x) <==> next.contains(x) by {
                if next.contains(x) {
                    let j = choose|j: int| 0 <= j < next.len() && next[j] == x;
                    if j < seen.len() {
                        assert(seen[j] == x);
                    }
                }
                if seen.contains(x) {
                    let j = choose|j: int| 0 <= j < seen.len() && seen[j] == x;
                    assert(next[j] == x);
                }
            }
        } else {
            out.insert(k, file.clone());
            let ghost after = addresses(out@);
            assert(after =~= before.insert(k as int, file@));
            assert forall|a: int, b: int| 0 <= a < b < after.len() implies after[a].precedes(
                after[b],
            ) by {
                if b < k {
                    assert(before[a].precedes(before[b]));
                } else if b == k {
                    assert(before[a].precedes(file@));
                } else if a == k {
                    lemma_address_order(file@, before[k as int], before[b - 1]);
                    lemma_address_order(before[k as int], file@, file@);
                    if b - 1 > k {
                        assert(before[k as int].precedes(before[b - 1]));
                    }
                } else if a < k {
                    assert(before[a].precedes(before[b - 1]));
                } else {
                    assert(before[a - 1].precedes(before[b - 1]));
                }
            }
            assert forall|x: Address| after.contains(x) <==> next.contains(x) by {
                if after.contains(x) {
                    let j = choose|j: int| 0 <= j < after.len() && after[j] == x;
                    if j < k {
                        assert(before[j] == x);
                        assert(before.contains(x));
                    } else if j > k {
                        assert(before[j - 1] == x);
                        assert(before.contains(x));
                    } else {
                        assert(next[seen.len() as int] == x);
                    }
                    if before.contains(x) {
                        assert(seen.contains(x));
                        let m = choose|m: int| 0 <= m < seen.len() && seen[m] == x;
                        assert(next[m] == x);
                    }
                }
                if next.contains(x) {
                    let j = choose|j: int| 0 <= j < next.len() && next[j] == x;
                    if j < seen.len() {
                        assert(seen[j] == x);
                        assert(before.contains(x));
                        let m = choose|m: int| 0 <= m < before.len() && before[m] == x;
                        if m < k {
                            assert(after[m] == x);
                        } else {
                            assert(after[m + 1] == x);
                        }
                    } else {
                        assert(after[k as int] == x);
                    }
                }
            }
        }
        i += 1;
    }
    assert(files@.take(files@.len() as int) =~= files@);
    out
}

/// `uuid::Uuid::new_v4` followed by `to_string`: a random id in the
/// hyphenated form, which has 36 characters. Two calls may differ.
#[verifier::external_body]
fn fresh_id() -> (r: String)
    ensures
        r@.len() == 36,
{
    uuid::Uuid::new_v4().to_string()
}

/// The name of the manifest document in the directory of its collection.
pub open spec fn document_name() -> Seq<char> {
    "cup.yml"@
}

/// Where the manifest document of the collection `name` lies below the
/// directory `dest`.
pub open spec fn document_at(dest: Seq<char>, name: Seq<char>) -> Seq<char> {
    join(join(dest, name), document_name())
}

impl Config {
    /// Where the manifest document of the collection `name` lies below the
    /// directory `dest`.
    pub fn document_path(dest: &str, name: &str) -> (r: String)
        ensures
            r@ == document_at(dest@, name@),
    {
        let dir = join_paths(dest, name);
        join_paths(dir.as_str(), "cup.yml")
    }

    /// A new manifest for the collection `name` below the directory `dest`,
    /// with a fresh id and no files. `exists` says whether a document lies
    /// at its place already, which is answered with `AlreadyExists` and the
    /// place.
    pub fn new(name: &str, dest: &str, exists: bool) -> (r: Result<Config, Error>)
        ensures
            match r {
                Ok(config) => {
                    &&& !exists
                    &&& config@.id.len() == 36
                    &&& config@.name == name@
                    &&& config@.files == Seq::<Address>::empty()
                    &&& config@.path == document_at(dest@, name@)
                },
                Err(Error::AlreadyExists(path)) => exists && path@ == document_at(dest@, name@),
                Err(_) => false,
            },
    {
        let path = Config::document_path(dest, name);
        if exists {
            Err(Error::AlreadyExists(path))
        } else {
            Ok(Config::with_id(fresh_id(), name, path))
        }
    }

    /// A manifest with the given id and name and no files, whose document
    /// lies at `path`.
    pub fn with_id(id: String, name: &str, path: String) -> (r: Config)
        ensures
            r@.id == id@,
            r@.name == name@,
            r@.files == Seq::<Address>::empty(),
            r@.path == path@,
    {
        let r = Config { id, name: String::from_str(name), files: Vec::new(), path };
        assert(addresses(r.files@) =~= Seq::<Address>::empty());
        r
    }

    /// Whether `file` is tracked.
    pub fn contains(&self, file: &File) -> (r: bool)
        ensures
            r == self@.files.contains(file@),
    {
        position(&self.files, file).is_some()
    }

    /// How the tracked files are shown to the user, in the order of the
    /// manifest.
    pub fn user_paths(&self) -> (r: Vec<String>)
        ensures
            r@.len() == self@.files.len(),
            forall|i: int| 0 <= i < r@.len() ==> (#[trigger] r@[i])@ == self@.files[i].display_path(),
    {
        let mut out: Vec<String> = Vec::new();
        let mut i: usize = 0;
        while i < self.files.len()
            invariant
                i <= self.files.len(),
                out@.len() == i,
                forall|k: int|
                    0 <= k < i ==> (#[trigger] out@[k])@ == self@.files[k].display_path(),
            decreases self.files.len() - i,
        {
            out.push(self.files[i].user_path());
            i += 1;
        }
        out
    }

    /// The tracked files at the indices `picks`, in the order of `picks`; an
    /// index behind the last file is passed over.
    pub fn chosen(&self, picks: &[usize]) -> (r: Vec<File>)
        ensures
            addresses(r@) == picked(self@.files, picks@),
    {
        let mut out: Vec<File> = Vec::new();
        let mut i: usize = 0;
        assert(picks@.take(0) =~= Seq::<usize>::empty());
        assert(addresses(out@) =~= Seq::<Address>::empty());
        while i < picks.len()
            invariant
                i <= picks.len(),
                addresses(out@) == picked(self@.files, picks@.take(i as int)),
            decreases picks.len() - i,
        {
            let ghost before = addresses(out@);
            proof {
                assert(picks@.take(i + 1).drop_last() =~= picks@.take(i as int));
                assert(picks@.take(i + 1).last() == picks@[i as int]);
            }
            if picks[i] < self.files.len() {
                out.push(self.files[picks[i]].clone());
                assert(addresses(out@) =~= before.push(self@.files[picks@[i as int] as int]));
            }
            i += 1;
        }
        assert(picks@.take(picks@.len() as int) =~= picks@);
        out
    }

    /// Puts the files in the order of addresses and drops repetitions, as is
    /// done before every save: what comes out is in strict order and holds
    /// the addresses that were tracked, which fixes it.
    pub fn normalize(&mut self)
        ensures
            strictly_ordered(final(self)@.files),
            same_addresses(final(self)@.files, old(self)@.files),
            strictly_ordered(old(self)@.files) ==> final(self)@.files == old(self)@.files,
            final(self)@.id == old(self)@.id,
            final(self)@.name == old(self)@.name,
            final(self)@.path == old(self)@.path,
    {
        let sorted = ordered(&self.files);
        proof {
            if strictly_ordered(addresses(self.files@)) {
                lemma_ordered_unique(addresses(sorted@), addresses(self.files@));
            }
        }
        self.files = sorted;
    }

    /// Tracks each file of `other` that is not tracked yet, in the order given;
    /// a file that occurs twice in `other` is added once.
    pub fn append(&mut self, other: &[File])
        ensures
            final(self)@.files == appended(old(self)@.files, addresses(other@)),
            old(self)@.files.no_duplicates() ==> final(self)@.files.no_duplicates(),
            final(self)@.id == old(self)@.id,
            final(self)@.name == old(self)@.name,
            final(self)@.path == old(self)@.path,
    {
        let mut i: usize = 0;
        assert(other@.take(0) =~= Seq::<File>::empty());
        while i < other.len()
            invariant
                i <= other.len(),
                self@.files == appended(old(self)@.files, addresses(other@.take(i as int))),
                self.id == old(self).id,
                self.name == old(self).name,
                self.path == old(self).path,
            decreases other.len() - i,
        {
            let ghost before = addresses(self.files@);
            proof {
                let next = addresses(other@.take(i + 1));
                assert(next.drop_last() =~= addresses(other@.take(i as int)));
                assert(next.last() == other@[i as int]@);
            }
            if position(&self.files, &other[i]).is_none() {
                let file = other[i].clone();
                self.files.push(file);
                assert(addresses(self.files@) =~= before.push(other@[i as int]@));
            }
            i += 1;
        }
        assert(other@.take(other@.len() as int) =~= other@);
        proof {
            lemma_appended(old(self)@.files, addresses(other@));
        }
    }

    /// Stops tracking each file of `other`; one that is not tracked is passed
    /// over. The last entry takes the place of the one that leaves.
    pub fn remove(&mut self, other: &[File])
        ensures
            final(self)@.files == removed(old(self)@.files, addresses(other@)),
            old(self)@.files.no_duplicates() ==> final(self)@.files.no_duplicates(),
            final(self)@.id == old(self)@.id,
            final(self)@.name == old(self)@.name,
            final(self)@.path == old(self)@.path,
    {
        let mut i: usize = 0;
        assert(other@.take(0) =~= Seq::<File>::empty());
        while i < other.len()
            invariant
                i <= other.len(),
                self@.files == removed(old(self)@.files, addresses(other@.take(i as int))),
                self.id == old(self).id,
                self.name == old(self).name,
                self.path == old(self).path,
            decreases other.len() - i,
        {
            let ghost before = addresses(self.files@);
            proof {
                let next = addresses(other@.take(i + 1));
                assert(next.drop_last() =~= addresses(other@.take(i as int)));
                assert(next.last() == other@[i as int]@);
            }
            if let Some(index) = position(&self.files, &other[i]) {
                proof {
                    before.index_of_first_ensures(other@[i as int]@);
                }
                let _ = self.files.swap_remove(index);
                assert(addresses(self.files@) =~= before.update(index as int, before.last()).drop_last());
            }
            i += 1;
        }
        assert(other@.take(other@.len() as int) =~= other@);
        proof {
            if old(self)@.files.no_duplicates() {
                lemma_removed(old(self)@.files, addresses(other@));
            }
        }
    }
}

} // verus!

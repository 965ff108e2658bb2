//! The steps of a reconciliation, their order, what they leave in the
//! archive, and the report on how they went.

use vstd::prelude::*;
use vstd::string::*;
use crate::address::{lemma_archive_path_injective, lemma_archive_path_inverts_parse,
    lemma_parse_inverts_archive_path, parse_archive_path, Address};
use crate::archive::{archived, lists, missing, not_archived, not_tracked, orphans, paths,
    well_formed};
use crate::error::{faults, Error, Failure, Fault};
use crate::manifest::{addresses, lemma_ordered_unique, same_addresses, strictly_ordered, Config};

verus! {

/// The mathematical value of an [`Action`].
pub enum Step {
    Copy { from: Seq<char>, to: Seq<char> },
    Remove { path: Seq<char> },
}

/// One change to the archive.
#[derive(Debug, PartialEq, Eq)]
pub enum Action {
    /// Copy the real file at `from` to the archive path `to`, making the
    /// directories above it.
    Copy { from: String, to: String },
    /// Delete the archive file at `path`.
    Remove { path: String },
}

impl View for Action {
    type V = Step;

    open spec fn view(&self) -> Step {
        match self {
            Action::Copy { from, to } => Step::Copy { from: from@, to: to@ },
            Action::Remove { path } => Step::Remove { path: path@ },
        }
    }
}

/// The steps that a list of actions holds, in order.
pub open spec fn steps(actions: Seq<Action>) -> Seq<Step> {
    actions.map_values(|a: Action| a@)
}

/// The step that brings the file of an address into the archive.
pub open spec fn copy_in(home: Seq<char>, root: Seq<char>) -> spec_fn(Address) -> Step {
    |a: Address| Step::Copy { from: a.real_path(home, root), to: a.archive_path() }
}

/// The step that deletes the archive file of an address.
pub open spec fn take_out() -> spec_fn(Address) -> Step {
    |a: Address| Step::Remove { path: a.archive_path() }
}

/// What a reconciliation does: one copy for each missing file, then one
/// removal for each orphan.
pub open spec fn plan(
    files: Seq<Address>,
    archive: Seq<Seq<char>>,
    home: Seq<char>,
    root: Seq<char>,
) -> Seq<Step> {
    missing(files, archive).map_values(copy_in(home, root)) + orphans(files, archive).map_values(
        take_out(),
    )
}

/// Holds of every path but `path`.
pub open spec fn other_than(path: Seq<char>) -> spec_fn(Seq<char>) -> bool {
    |p: Seq<char>| p != path
}

/// The archive after one step that went well.
pub open spec fn after(archive: Seq<Seq<char>>, step: Step) -> Seq<Seq<char>> {
    match step {
        Step::Copy { from, to } => if archive.contains(to) {
            archive
        } else {
            archive.push(to)
        },
        Step::Remove { path } => archive.filter(other_than(path)),
    }
}

/// The archive after all of `steps` went well, in order.
pub open spec fn after_all(archive: Seq<Seq<char>>, steps: Seq<Step>) -> Seq<Seq<char>>
    decreases steps.len(),
{
    if steps.len() == 0 {
        archive
    } else {
        after(after_all(archive, steps.drop_last()), steps.last())
    }
}

/// `true` when step `i` was taken and went well, going by the outcomes
/// `done`; a step without an outcome did not.
pub open spec fn went_well(done: Seq<bool>, i: int) -> bool {
    0 <= i < done.len() && done[i]
}

/// The failure that a step which did not go well is reported as: by the
/// archive path that stays missing, or that stays in the archive.
pub open spec fn fault_of(step: Step) -> Fault {
    match step {
        Step::Copy { from, to } => Fault::CopyFailed(to),
        Step::Remove { path } => Fault::RemoveFailed(path),
    }
}

/// The failures among `steps`, in order, going by the outcomes `done`.
pub open spec fn failures(steps: Seq<Step>, done: Seq<bool>) -> Seq<Fault>
    decreases steps.len(),
{
    if steps.len() == 0 {
        Seq::empty()
    } else if went_well(done, steps.len() - 1) {
        failures(steps.drop_last(), done)
    } else {
        failures(steps.drop_last(), done).push(fault_of(steps.last()))
    }
}

/// The archive after `steps` were tried in order with the outcomes `done`.
pub open spec fn after_outcomes(archive: Seq<Seq<char>>, steps: Seq<Step>, done: Seq<bool>) -> Seq<
    Seq<char>,
>
    decreases steps.len(),
{
    if steps.len() == 0 {
        archive
    } else if went_well(done, steps.len() - 1) {
        after(after_outcomes(archive, steps.drop_last(), done), steps.last())
    } else {
        after_outcomes(archive, steps.drop_last(), done)
    }
}

/// The archive paths that `steps` deleted, in order, going by the outcomes
/// `done`.
pub open spec fn deleted(steps: Seq<Step>, done: Seq<bool>) -> Seq<Seq<char>>
    decreases steps.len(),
{
    if steps.len() == 0 {
        Seq::empty()
    } else if went_well(done, steps.len() - 1) && steps.last() is Remove {
        deleted(steps.drop_last(), done).push(steps.last()->path)
    } else {
        deleted(steps.drop_last(), done)
    }
}

/// Where every step went well, nothing failed and the archive is what the
/// steps make of it.
pub proof fn lemma_all_went_well(archive: Seq<Seq<char>>, steps: Seq<Step>, done: Seq<bool>)
    requires
        forall|i: int| 0 <= i < steps.len() ==> went_well(done, i),
    ensures
        failures(steps, done).len() == 0,
        after_outcomes(archive, steps, done) == after_all(archive, steps),
    decreases steps.len(),
{
    if steps.len() > 0 {
        lemma_all_went_well(archive, steps.drop_last(), done);
    }
}

/// Whether every step went well: `Ok` when none of `actions` failed, going by
/// the outcomes `done`, else `SyncFailed` with every failure, in the order of
/// the steps. An action without an outcome counts as failed.
pub fn report(actions: &[Action], done: &[bool]) -> (r: Result<(), Error>)
    ensures
        match r {
            Ok(_) => failures(steps(actions@), done@).len() == 0,
            Err(Error::SyncFailed(list)) => list@.len() > 0 && faults(list@) == failures(
                steps(actions@),
                done@,
            ),
            Err(_) => false,
        },
{
    let mut list: Vec<Failure> = Vec::new();
    let mut i: usize = 0;
    let ghost all = steps(actions@);
    assert(all.take(0) =~= Seq::<Step>::empty());
    assert(faults(list@) =~= Seq::<Fault>::empty());
    while i < actions.len()
        invariant
            i <= actions.len(),
            all == steps(actions@),
            faults(list@) == failures(all.take(i as int), done@),
        decreases actions.len() - i,
    {
        let ghost before = faults(list@);
        proof {
            assert(all.take(i + 1).drop_last() =~= all.take(i as int));
            assert(all.take(i + 1).last() == actions@[i as int]@);
        }
        if !(i < done.len() && done[i]) {
            let failure = match &actions[i] {
                Action::Copy { from, to } => Failure::CopyFailed(to.clone()),
                Action::Remove { path } => Failure::RemoveFailed(path.clone()),
            };
            list.push(failure);
            assert(faults(list@) =~= before.push(fault_of(actions@[i as int]@)));
        }
        i += 1;
    }
    assert(all.take(all.len() as int) =~= all);
    if list.len() == 0 {
        Ok(())
    } else {
        Err(Error::SyncFailed(list))
    }
}

/// The archive paths that `actions` deleted, going by the outcomes `done`.
pub fn removed_paths(actions: &[Action], done: &[bool]) -> (r: Vec<String>)
    ensures
        paths(r@) == deleted(steps(actions@), done@),
{
    let mut out: Vec<String> = Vec::new();
    let mut i: usize = 0;
    let ghost all = steps(actions@);
    assert(all.take(0) =~= Seq::<Step>::empty());
    assert(paths(out@) =~= Seq::<Seq<char>>::empty());
    while i < actions.len()
        invariant
            i <= actions.len(),
            all == steps(actions@),
            paths(out@) == deleted(all.take(i as int), done@),
        decreases actions.len() - i,
    {
        let ghost before = paths(out@);
        proof {
            assert(all.take(i + 1).drop_last() =~= all.take(i as int));
            assert(all.take(i + 1).last() == actions@[i as int]@);
        }
        if i < done.len() && done[i] {
            match &actions[i] {
                Action::Remove { path } => {
                    out.push(path.clone());
                    assert(paths(out@) =~= before.push(path@));
                },
                Action::Copy { from, to } => {},
            }
        }
        i += 1;
    }
    assert(all.take(all.len() as int) =~= all);
    out
}

/// `listing` without the entries equal to `path`.
pub fn without_path(listing: &Vec<String>, path: &String) -> (r: Vec<String>)
    ensures
        paths(r@) == paths(listing@).filter(other_than(path@)),
{
    let mut out: Vec<String> = Vec::new();
    let mut i: usize = 0;
    let ghost all = paths(listing@);
    proof {
        reveal(Seq::filter);
        assert(all.take(0) =~= Seq::<Seq<char>>::empty());
        assert(paths(out@) =~= Seq::<Seq<char>>::empty());
    }
    while i < listing.len()
        invariant
            i <= listing.len(),
            all == paths(listing@),
            paths(out@) == all.take(i as int).filter(other_than(path@)),
        decreases listing.len() - i,
    {
        let ghost before = paths(out@);
        proof {
            assert(all.take(i + 1) =~= all.take(i as int).push(all[i as int]));
            all.take(i as int).lemma_filter_push(all[i as int], other_than(path@));
            assert(all[i as int] == listing@[i as int]@);
        }
        if !(listing[i] == *path) {
            out.push(listing[i].clone());
            assert(paths(out@) =~= before.push(all[i as int]));
        }
        i += 1;
    }
    assert(all.take(all.len() as int) =~= all);
    out
}

/// The files that the archive holds after `actions` were tried in order with
/// the outcomes `done`, given the files that it held before.
pub fn archive_after(archive: &[String], actions: &[Action], done: &[bool]) -> (r: Vec<String>)
    ensures
        paths(r@) == after_outcomes(paths(archive@), steps(actions@), done@),
{
    let mut out: Vec<String> = Vec::new();
    let mut n: usize = 0;
    while n < archive.len()
        invariant
            n <= archive.len(),
            paths(out@) == paths(archive@).take(n as int),
        decreases archive.len() - n,
    {
        let ghost before = paths(out@);
        out.push(archive[n].clone());
        assert(paths(out@) =~= before.push(archive@[n as int]@));
        assert(paths(archive@).take(n + 1) =~= paths(archive@).take(n as int).push(
            archive@[n as int]@,
        ));
        n += 1;
    }
    assert(paths(archive@).take(archive@.len() as int) =~= paths(archive@));
    let mut i: usize = 0;
    let ghost all = steps(actions@);
    assert(all.take(0) =~= Seq::<Step>::empty());
    while i < actions.len()
        invariant
            i <= actions.len(),
            all == steps(actions@),
            paths(out@) == after_outcomes(paths(archive@), all.take(i as int), done@),
        decreases actions.len() - i,
    {
        let ghost before = paths(out@);
        proof {
            assert(all.take(i + 1).drop_last() =~= all.take(i as int));
            assert(all.take(i + 1).last() == actions@[i as int]@);
        }
        if i < done.len() && done[i] {
            match &actions[i] {
                Action::Copy { from, to } => {
                    if !lists(out.as_slice(), to) {
                        out.push(to.clone());
                        assert(paths(out@) =~= before.push(to@));
                    }
                },
                Action::Remove { path } => {
                    out = without_path(&out, path);
                },
            }
        }
        i += 1;
    }
    assert(all.take(all.len() as int) =~= all);
    out
}

/// `true` when `path` is the archive path of one of `files`.
pub open spec fn holds_path(files: Seq<Address>, path: Seq<char>) -> bool {
    exists|k: int| 0 <= k < files.len() && #[trigger] files[k].archive_path() == path
}

/// What a filter keeps: the entries that the predicate holds of.
pub proof fn lemma_filter_members<A>(s: Seq<A>, pred: spec_fn(A) -> bool)
    ensures
        forall|x: A| s.filter(pred).contains(x) <==> s.contains(x) && pred(x),
    decreases s.len(),
{
    reveal(Seq::filter);
    if s.len() > 0 {
        let front = s.drop_last();
        let kept = front.filter(pred);
        lemma_filter_members(front, pred);
        assert forall|x: A| s.filter(pred).contains(x) <==> s.contains(x) && pred(x) by {
            if s.contains(x) {
                let k = choose|k: int| 0 <= k < s.len() && s[k] == x;
                if k < s.len() - 1 {
                    assert(front[k] == x);
                }
            }
            if front.contains(x) {
                let k = choose|k: int| 0 <= k < front.len() && front[k] == x;
                assert(s[k] == x);
            }
            assert(s[s.len() - 1] == s.last());
            if kept.contains(x) {
                let k = choose|k: int| 0 <= k < kept.len() && kept[k] == x;
                if pred(s.last()) {
                    assert(kept.push(s.last())[k] == x);
                }
            }
            if pred(s.last()) {
                assert(kept.push(s.last())[kept.len() as int] == s.last());
                if kept.push(s.last()).contains(x) {
                    let k = choose|k: int|
                        0 <= k < kept.push(s.last()).len() && kept.push(s.last())[k] == x;
                    if k < kept.len() {
                        assert(kept[k] == x);
                    }
                }
            }
        }
    }
}

/// After the copies of `files` the archive holds what it held and the archive
/// paths of `files`.
pub proof fn lemma_after_copies(
    archive: Seq<Seq<char>>,
    files: Seq<Address>,
    home: Seq<char>,
    root: Seq<char>,
)
    ensures
        forall|p: Seq<char>|
            #![trigger after_all(archive, files.map_values(copy_in(home, root))).contains(p)]
            after_all(archive, files.map_values(copy_in(home, root))).contains(p)
                <==> archive.contains(p) || holds_path(files, p),
    decreases files.len(),
{
    let copies = files.map_values(copy_in(home, root));
    if files.len() > 0 {
        let front = files.drop_last();
        lemma_after_copies(archive, front, home, root);
        assert(copies.drop_last() =~= front.map_values(copy_in(home, root)));
        let before = after_all(archive, copies.drop_last());
        let to = files.last().archive_path();
        assert(copies.last() == Step::Copy { from: files.last().real_path(home, root), to });
        let done = after_all(archive, copies);
        assert forall|p: Seq<char>| done.contains(p) <==> archive.contains(p) || holds_path(
            files,
            p,
        ) by {
            if holds_path(front, p) {
                let k = choose|k: int| 0 <= k < front.len() && front[k].archive_path() == p;
                assert(files[k].archive_path() == p);
            }
            if holds_path(files, p) {
                let k = choose|k: int| 0 <= k < files.len() && files[k].archive_path() == p;
                if k < files.len() - 1 {
                    assert(front[k].archive_path() == p);
                }
            }
            assert(files[files.len() - 1].archive_path() == to);
            if before.contains(p) {
                let k = choose|k: int| 0 <= k < before.len() && before[k] == p;
                assert(done[k] == p);
            }
            if !before.contains(to) {
                assert(done[before.len() as int] == to);
                if done.contains(p) {
                    let k = choose|k: int| 0 <= k < done.len() && done[k] == p;
                    if k < before.len() {
                        assert(before[k] == p);
                    }
                }
            }
        }
    }
}

/// After the removals of `files` the archive holds what it held but the
/// archive paths of `files`.
pub proof fn lemma_after_removals(
    archive: Seq<Seq<char>>,
    first: Seq<Step>,
    files: Seq<Address>,
)
    ensures
        forall|p: Seq<char>|
            #![trigger after_all(archive, first + files.map_values(take_out())).contains(p)]
            after_all(archive, first + files.map_values(take_out())).contains(p) <==> after_all(
                archive,
                first,
            ).contains(p) && !holds_path(files, p),
    decreases files.len(),
{
    let removals = files.map_values(take_out());
    if files.len() == 0 {
        assert(first + removals =~= first);
    } else {
        let front = files.drop_last();
        lemma_after_removals(archive, first, front);
        assert((first + removals).drop_last() =~= first + front.map_values(take_out()));
        let before = after_all(archive, first + front.map_values(take_out()));
        let path = files.last().archive_path();
        assert((first + removals).last() == Step::Remove { path });
        let done = after_all(archive, first + removals);
        lemma_filter_members(before, other_than(path));
        assert forall|p: Seq<char>| done.contains(p) <==> after_all(archive, first).contains(p)
            && !holds_path(files, p) by {
            if holds_path(front, p) {
                let k = choose|k: int| 0 <= k < front.len() && front[k].archive_path() == p;
                assert(files[k].archive_path() == p);
            }
            if holds_path(files, p) {
                let k = choose|k: int| 0 <= k < files.len() && files[k].archive_path() == p;
                if k < files.len() - 1 {
                    assert(front[k].archive_path() == p);
                }
            }
            assert(files[files.len() - 1].archive_path() == path);
            assert(before.contains(p) <==> after_all(archive, first).contains(p) && !holds_path(
                front,
                p,
            ));
            assert(done == before.filter(other_than(path)));
            assert(done.contains(p) <==> before.contains(p) && other_than(path)(p));
        }
    }
}

/// What the archive holds after all steps of a reconciliation went well: what
/// it held and the archive paths of the missing files, but the archive paths
/// of the orphans.
pub proof fn lemma_after_plan(
    files: Seq<Address>,
    archive: Seq<Seq<char>>,
    home: Seq<char>,
    root: Seq<char>,
)
    ensures
        forall|p: Seq<char>|
            after_all(archive, plan(files, archive, home, root)).contains(p) <==> (
            archive.contains(p) || holds_path(missing(files, archive), p)) && !holds_path(
                orphans(files, archive),
                p,
            ),
{
    let lacking = missing(files, archive);
    let lost = orphans(files, archive);
    let copies = lacking.map_values(copy_in(home, root));
    lemma_after_copies(archive, lacking, home, root);
    lemma_after_removals(archive, copies, lost);
    let removals = lost.map_values(take_out());
    assert(plan(files, archive, home, root) == copies + removals);
    assert forall|p: Seq<char>|
        after_all(archive, plan(files, archive, home, root)).contains(p) <==> (archive.contains(p)
            || holds_path(lacking, p)) && !holds_path(lost, p) by {
        assert(after_all(archive, copies).contains(p) <==> archive.contains(p) || holds_path(
            lacking,
            p,
        ));
        assert(after_all(archive, copies + removals).contains(p) <==> after_all(
            archive,
            copies,
        ).contains(p) && !holds_path(lost, p));
    }
}

/// After a reconciliation whose steps all went well, the archive holds the
/// file of every tracked address.
pub proof fn lemma_sync_brings_all(
    files: Seq<Address>,
    archive: Seq<Seq<char>>,
    home: Seq<char>,
    root: Seq<char>,
    i: int,
)
    requires
        0 <= i < files.len(),
    ensures
        after_all(archive, plan(files, archive, home, root)).contains(files[i].archive_path()),
{
    let lacking = missing(files, archive);
    let lost = orphans(files, archive);
    let f = files[i];
    let p = f.archive_path();
    lemma_after_plan(files, archive, home, root);
    lemma_filter_members(files, not_archived(archive));
    lemma_filter_members(archived(archive), not_tracked(files));
    assert(files.contains(f));
    if !archive.contains(p) {
        assert(not_archived(archive)(f));
        assert(lacking.contains(f));
        let k = choose|k: int| 0 <= k < lacking.len() && lacking[k] == f;
        assert(lacking[k].archive_path() == p);
        assert(holds_path(lacking, p));
    }
    if holds_path(lost, p) {
        let k = choose|k: int| 0 <= k < lost.len() && lost[k].archive_path() == p;
        lemma_archive_path_injective(lost[k], f);
        assert(lost.contains(lost[k]));
        assert(not_tracked(files)(lost[k]));
        assert(false);
    }
}

/// After a reconciliation whose steps all went well, every path of the
/// archive names a tracked address.
pub proof fn lemma_sync_leaves_tracked(
    files: Seq<Address>,
    archive: Seq<Seq<char>>,
    home: Seq<char>,
    root: Seq<char>,
    p: Seq<char>,
)
    requires
        forall|i: int| 0 <= i < files.len() ==> (#[trigger] files[i]).is_valid(),
        well_formed(archive),
        after_all(archive, plan(files, archive, home, root)).contains(p),
    ensures
        parse_archive_path(p) is Some,
        files.contains(parse_archive_path(p)->Some_0),
{
    let lacking = missing(files, archive);
    let lost = orphans(files, archive);
    lemma_after_plan(files, archive, home, root);
    lemma_filter_members(files, not_archived(archive));
    lemma_filter_members(archived(archive), not_tracked(files));
    if holds_path(lacking, p) {
        let k = choose|k: int| 0 <= k < lacking.len() && lacking[k].archive_path() == p;
        assert(lacking.contains(lacking[k]));
        assert(files.contains(lacking[k]));
        let m = choose|m: int| 0 <= m < files.len() && files[m] == lacking[k];
        assert(files[m].is_valid());
        lemma_parse_inverts_archive_path(lacking[k]);
    } else {
        assert(archive.contains(p));
        let m = choose|m: int| 0 <= m < archive.len() && archive[m] == p;
        assert(parse_archive_path(archive[m]) is Some);
        let a = parse_archive_path(p)->Some_0;
        lemma_archive_path_inverts_parse(p);
        assert(archived(archive)[m] == a);
        assert(archived(archive).contains(a));
        if !files.contains(a) {
            assert(not_tracked(files)(a));
            assert(lost.contains(a));
            let k = choose|k: int| 0 <= k < lost.len() && lost[k] == a;
            assert(lost[k].archive_path() == p);
            assert(holds_path(lost, p));
        }
    }
}

/// A reconciliation whose steps all went well leaves an archive that lacks no
/// tracked file and holds no orphan, and on which a second reconciliation has
/// nothing to do. It holds of a manifest of valid addresses and an archive
/// whose paths all name addresses.
pub proof fn lemma_sync_converges(
    files: Seq<Address>,
    archive: Seq<Seq<char>>,
    home: Seq<char>,
    root: Seq<char>,
)
    requires
        forall|i: int| 0 <= i < files.len() ==> (#[trigger] files[i]).is_valid(),
        well_formed(archive),
    ensures
        well_formed(after_all(archive, plan(files, archive, home, root))),
        missing(files, after_all(archive, plan(files, archive, home, root))).len() == 0,
        orphans(files, after_all(archive, plan(files, archive, home, root))).len() == 0,
        plan(files, after_all(archive, plan(files, archive, home, root)), home, root).len() == 0,
{
    let done = after_all(archive, plan(files, archive, home, root));
    assert forall|j: int| 0 <= j < done.len() implies parse_archive_path(#[trigger] done[j])
        is Some by {
        assert(done.contains(done[j]));
        lemma_sync_leaves_tracked(files, archive, home, root, done[j]);
    }
    let lacking = missing(files, done);
    let lost = orphans(files, done);
    lemma_filter_members(files, not_archived(done));
    lemma_filter_members(archived(done), not_tracked(files));
    if lacking.len() > 0 {
        let f = lacking[0];
        assert(lacking.contains(f));
        assert(files.contains(f) && not_archived(done)(f));
        let k = choose|k: int| 0 <= k < files.len() && files[k] == f;
        lemma_sync_brings_all(files, archive, home, root, k);
        assert(false);
    }
    if lost.len() > 0 {
        let a = lost[0];
        assert(lost.contains(a));
        assert(archived(done).contains(a) && not_tracked(files)(a));
        let k = choose|k: int| 0 <= k < archived(done).len() && archived(done)[k] == a;
        assert(done.contains(done[k]));
        lemma_sync_leaves_tracked(files, archive, home, root, done[k]);
        assert(false);
    }
}

/// A second save right after a save whose steps all went well changes
/// nothing: the manifest stays as the first save left it, and no step is left
/// to take. `files` is the manifest as the first save left it, `again` what
/// the second save makes of it. It holds of a manifest of valid addresses
/// and an archive whose paths all name addresses.
pub proof fn lemma_second_save_changes_nothing(
    files: Seq<Address>,
    again: Seq<Address>,
    archive: Seq<Seq<char>>,
    home: Seq<char>,
    root: Seq<char>,
)
    requires
        forall|i: int| 0 <= i < files.len() ==> (#[trigger] files[i]).is_valid(),
        well_formed(archive),
        strictly_ordered(files),
        strictly_ordered(again),
        same_addresses(again, files),
    ensures
        again == files,
        plan(again, after_all(archive, plan(files, archive, home, root)), home, root).len() == 0,
{
    lemma_ordered_unique(again, files);
    lemma_sync_converges(files, archive, home, root);
}

impl Config {
    /// The first half of a save: puts the files in order, each once, and says
    /// which steps bring the archive in line with them. What is left to the
    /// caller is to take the steps, to write the manifest document and to
    /// have the repository commit. The manifest is in order also where an
    /// archive path that names no address is answered with
    /// `MalformedArchivePath`.
    pub fn save(&mut self, archive: &[String], home: &str, root: &str) -> (r: Result<
        Vec<Action>,
        Error,
    >)
        ensures
            strictly_ordered(final(self)@.files),
            same_addresses(final(self)@.files, old(self)@.files),
            strictly_ordered(old(self)@.files) ==> final(self)@.files == old(self)@.files,
            final(self)@.id == old(self)@.id,
            final(self)@.name == old(self)@.name,
            final(self)@.path == old(self)@.path,
            match r {
                Ok(actions) => {
                    &&& well_formed(paths(archive@))
                    &&& steps(actions@) == plan(final(self)@.files, paths(archive@), home@, root@)
                    &&& forall|i: int, j: int|
                        0 <= i < j < actions@.len() && steps(actions@)[j] is Copy ==> steps(
                            actions@,
                        )[i] is Copy
                },
                Err(Error::MalformedArchivePath(p)) => exists|i: int|
                    0 <= i < archive@.len() && #[trigger] paths(archive@)[i] == p@
                        && parse_archive_path(p@) is None && well_formed(paths(archive@).take(i)),
                Err(_) => false,
            },
    {
        self.normalize();
        self.sync_plan(archive, home, root)
    }

    /// The steps that bring the archive in line with the manifest: first the
    /// copies of the missing files, in the order of the manifest, then the
    /// removals of the orphans, in the order of the archive. No copy comes
    /// after a removal. An archive path that names no address is answered
    /// with `MalformedArchivePath`, and nothing is to be done then.
    pub fn sync_plan(&self, archive: &[String], home: &str, root: &str) -> (r: Result<
        Vec<Action>,
        Error,
    >)
        ensures
            match r {
                Ok(actions) => {
                    &&& well_formed(paths(archive@))
                    &&& steps(actions@) == plan(self@.files, paths(archive@), home@, root@)
                    &&& forall|i: int, j: int|
                        0 <= i < j < actions@.len() && steps(actions@)[j] is Copy ==> steps(
                            actions@,
                        )[i] is Copy
                },
                Err(Error::MalformedArchivePath(p)) => exists|i: int|
                    0 <= i < archive@.len() && #[trigger] paths(archive@)[i] == p@
                        && parse_archive_path(p@) is None && well_formed(paths(archive@).take(i)),
                Err(_) => false,
            },
    {
        let lost = match self.lost_files(archive) {
            Ok(lost) => lost,
            Err(e) => {
                return Err(e);
            },
        };
        let lacking = self.missing_files(archive);
        let mut actions: Vec<Action> = Vec::new();
        let ghost copies = addresses(lacking@).map_values(copy_in(home@, root@));
        let ghost removals = addresses(lost@).map_values(take_out());
        let mut i: usize = 0;
        while i < lacking.len()
            invariant
                i <= lacking.len(),
                copies == addresses(lacking@).map_values(copy_in(home@, root@)),
                steps(actions@) == copies.take(i as int),
            decreases lacking.len() - i,
        {
            let ghost before = steps(actions@);
            let from = lacking[i].stored_path(home, root);
            let to = lacking[i].to_string();
            actions.push(Action::Copy { from, to });
            assert(steps(actions@) =~= before.push(copies[i as int]));
            assert(copies.take(i + 1) =~= copies.take(i as int).push(copies[i as int]));
            i += 1;
        }
        assert(copies.take(copies.len() as int) =~= copies);
        let mut k: usize = 0;
        while k < lost.len()
            invariant
                k <= lost.len(),
                removals == addresses(lost@).map_values(take_out()),
                steps(actions@) == copies + removals.take(k as int),
            decreases lost.len() - k,
        {
            let ghost before = steps(actions@);
            let path = lost[k].to_string();
            actions.push(Action::Remove { path });
            assert(steps(actions@) =~= before.push(removals[k as int]));
            assert(removals.take(k + 1) =~= removals.take(k as int).push(removals[k as int]));
            assert(copies + removals.take(k + 1) =~= (copies + removals.take(k as int)).push(
                removals[k as int],
            ));
            k += 1;
        }
        assert(removals.take(removals.len() as int) =~= removals);
        Ok(actions)
    }
}

} // verus!

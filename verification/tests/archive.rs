use cup::address::File;
use cup::archive::lists;
use cup::error::{Error, Failure};
use cup::manifest::Config;
use cup::prune::{above_some, dir_above, dir_before, remove_empty_dir_all};
use cup::sync::{archive_after, removed_paths, report, without_path, Action};

fn user(rel: &str) -> File {
    File::User(rel.to_string())
}

fn root(rel: &str) -> File {
    File::Root(rel.to_string())
}

fn manifest(files: Vec<File>) -> Config {
    Config {
        id: "id".to_string(),
        name: "desk".to_string(),
        files,
        path: "/data/desk/cup.yml".to_string(),
    }
}

fn listing(paths: &[&str]) -> Vec<String> {
    paths.iter().map(|p| p.to_string()).collect()
}

fn copy(from: &str, to: &str) -> Action {
    Action::Copy { from: from.to_string(), to: to.to_string() }
}

fn remove(path: &str) -> Action {
    Action::Remove { path: path.to_string() }
}

#[test]
fn lists_finds_whole_paths_only() {
    let archive = listing(&["user/a", "root/b"]);
    assert!(lists(&archive, &"root/b".to_string()));
    assert!(!lists(&archive, &"root/".to_string()));
    assert!(!lists(&[], &"root/b".to_string()));
}

#[test]
fn missing_files_are_the_tracked_ones_not_archived() {
    let config = manifest(vec![user("a"), root("b"), user("c/d")]);
    let archive = listing(&["user/c/d", "root/a", "user/b"]);
    assert_eq!(config.missing_files(&archive), vec![user("a"), root("b")]);
    assert_eq!(config.missing_files(&[]), vec![user("a"), root("b"), user("c/d")]);
    assert!(config.missing_files(&listing(&["root/b", "user/a", "user/c/d"])).is_empty());
}

#[test]
fn lost_files_are_the_archived_ones_not_tracked() {
    let config = manifest(vec![user("a"), root("b")]);
    let archive = listing(&["root/x", "user/a", "user/b", "root/b"]);
    assert_eq!(config.lost_files(&archive), Ok(vec![root("x"), user("b")]));
    assert_eq!(config.lost_files(&[]), Ok(vec![]));
}

#[test]
fn lost_files_name_the_first_malformed_path() {
    let config = manifest(vec![user("a")]);
    let archive = listing(&["user/a", "home/x", "root/y", "stray"]);
    assert_eq!(config.lost_files(&archive), Err(Error::MalformedArchivePath("home/x".to_string())));
}

#[test]
fn sync_plan_copies_before_it_removes() {
    let config = manifest(vec![user(".bashrc"), root("etc/hosts"), user(".vimrc")]);
    let archive = listing(&["root/old", "user/.vimrc", "user/gone"]);
    let plan = config.sync_plan(&archive, "/home/ana", "/").unwrap();
    assert_eq!(
        plan,
        vec![
            copy("/home/ana/.bashrc", "user/.bashrc"),
            copy("/etc/hosts", "root/etc/hosts"),
            remove("root/old"),
            remove("user/gone"),
        ]
    );
}

#[test]
fn sync_plan_refuses_a_malformed_archive() {
    let config = manifest(vec![user("a")]);
    let archive = listing(&["user/a", "other/b"]);
    assert_eq!(
        config.sync_plan(&archive, "/home/ana", "/"),
        Err(Error::MalformedArchivePath("other/b".to_string()))
    );
}

#[test]
fn rename_copies_the_new_file_before_the_old_one_leaves() {
    let mut config = manifest(vec![root("a")]);
    config.remove(&[root("a")]);
    config.append(&[root("b")]);
    let archive = listing(&["root/a"]);
    let plan = config.save(&archive, "/home/ana", "/").unwrap();
    assert_eq!(plan, vec![copy("/b", "root/b"), remove("root/a")]);
    let after_copy = archive_after(&archive, &plan, &[true]);
    assert_eq!(after_copy, listing(&["root/a", "root/b"]));
    let done = archive_after(&archive, &plan, &[true, true]);
    assert_eq!(done, listing(&["root/b"]));
}

#[test]
fn sync_converges_when_every_step_goes_well() {
    let mut config = manifest(vec![root("etc/hosts"), user(".bashrc"), user(".config/a"), user(".bashrc")]);
    let archive = listing(&["user/.config/a", "user/.config/b", "root/etc/passwd"]);
    let plan = config.save(&archive, "/home/ana", "/").unwrap();
    let done = archive_after(&archive, &plan, &vec![true; plan.len()]);
    assert!(config.missing_files(&done).is_empty());
    assert_eq!(config.lost_files(&done), Ok(vec![]));
    assert_eq!(done, listing(&["user/.config/a", "user/.bashrc", "root/etc/hosts"]));
    assert_eq!(report(&plan, &vec![true; plan.len()]), Ok(()));
}

#[test]
fn second_save_has_nothing_to_do() {
    let mut config = manifest(vec![root("b"), user("a"), root("b")]);
    let archive = listing(&["user/x"]);
    let plan = config.save(&archive, "/home/ana", "/").unwrap();
    let files = config.files.clone();
    let done = archive_after(&archive, &plan, &vec![true; plan.len()]);
    let again = config.save(&done, "/home/ana", "/").unwrap();
    assert!(again.is_empty());
    assert_eq!(config.files, files);
    assert_eq!(archive_after(&done, &again, &[]), done);
}

#[test]
fn save_orders_the_manifest_even_when_the_archive_is_malformed() {
    let mut config = manifest(vec![root("b"), user("a"), root("b")]);
    let archive = listing(&["nowhere"]);
    assert_eq!(
        config.save(&archive, "/home/ana", "/"),
        Err(Error::MalformedArchivePath("nowhere".to_string()))
    );
    assert_eq!(config.files, vec![user("a"), root("b")]);
}

#[test]
fn a_failed_copy_is_missing_again_on_the_next_save() {
    let mut config = manifest(vec![user("a"), user("b")]);
    let plan = config.save(&[], "/home/ana", "/").unwrap();
    let outcomes = [true, false];
    assert_eq!(
        report(&plan, &outcomes),
        Err(Error::SyncFailed(vec![Failure::CopyFailed("user/b".to_string())]))
    );
    let done = archive_after(&[], &plan, &outcomes);
    assert_eq!(done, listing(&["user/a"]));
    assert_eq!(config.files, vec![user("a"), user("b")]);
    assert_eq!(config.missing_files(&done), vec![user("b")]);
    assert_eq!(
        config.save(&done, "/home/ana", "/").unwrap(),
        vec![copy("/home/ana/b", "user/b")]
    );
}

#[test]
fn report_lists_every_failure_in_order() {
    let plan = vec![copy("/h/a", "user/a"), copy("/h/b", "user/b"), remove("root/c"), remove("root/d")];
    assert_eq!(report(&plan, &[true, true, true, true]), Ok(()));
    assert_eq!(report(&[], &[]), Ok(()));
    assert_eq!(
        report(&plan, &[false, true, false, true]),
        Err(Error::SyncFailed(vec![
            Failure::CopyFailed("user/a".to_string()),
            Failure::RemoveFailed("root/c".to_string()),
        ]))
    );
    assert_eq!(
        report(&plan, &[true, true]),
        Err(Error::SyncFailed(vec![
            Failure::RemoveFailed("root/c".to_string()),
            Failure::RemoveFailed("root/d".to_string()),
        ]))
    );
}

#[test]
fn removed_paths_are_the_removals_that_went_well() {
    let plan = vec![copy("/h/a", "user/a"), remove("root/c"), remove("root/d"), remove("root/e")];
    assert_eq!(removed_paths(&plan, &[true, true, false, true]), listing(&["root/c", "root/e"]));
    assert!(removed_paths(&plan, &[]).is_empty());
}

#[test]
fn archive_after_applies_only_what_went_well() {
    let archive = listing(&["user/a", "root/c", "root/d"]);
    let plan = vec![copy("/h/a", "user/a"), copy("/h/b", "user/b"), remove("root/c"), remove("root/d")];
    assert_eq!(
        archive_after(&archive, &plan, &[true, true, true, false]),
        listing(&["user/a", "root/d", "user/b"])
    );
    assert_eq!(archive_after(&archive, &plan, &[]), archive);
}

#[test]
fn without_path_drops_every_equal_entry() {
    let archive = listing(&["a", "b", "a", "c"]);
    assert_eq!(without_path(&archive, &"a".to_string()), listing(&["b", "c"]));
    assert_eq!(without_path(&archive, &"x".to_string()), archive);
}

#[test]
fn pruning_removes_the_directories_left_empty() {
    let removed = listing(&["user/sub/dir/file"]);
    assert_eq!(
        remove_empty_dir_all(&removed, &listing(&["user/other"])),
        listing(&["user/sub/dir", "user/sub"])
    );
    assert_eq!(
        remove_empty_dir_all(&removed, &listing(&["user/sub/other"])),
        listing(&["user/sub/dir"])
    );
    assert_eq!(
        remove_empty_dir_all(&removed, &[]),
        listing(&["user/sub/dir", "user/sub", "user"])
    );
    assert!(remove_empty_dir_all(&removed, &listing(&["user/sub/dir/kept"])).is_empty());
}

#[test]
fn pruning_never_names_the_archive_root() {
    let removed = listing(&["user/a", "root/b", "c", "/d", ""]);
    let dirs = remove_empty_dir_all(&removed, &[]);
    assert_eq!(dirs, listing(&["root", "user"]));
    assert!(dirs.iter().all(|d| !d.is_empty()));
}

#[test]
fn pruning_puts_a_directory_before_those_above_it() {
    let removed = listing(&["user/a/b/c/f", "user/a/x/g", "root/e/h"]);
    let dirs = remove_empty_dir_all(&removed, &listing(&["root/k"]));
    assert_eq!(dirs.len(), 6);
    for (i, d) in dirs.iter().enumerate() {
        for e in dirs.iter().skip(i + 1) {
            assert!(d.len() >= e.len());
            assert!(!e.starts_with(&format!("{}/", d)));
            assert_ne!(d, e);
        }
    }
    for d in ["user/a/b/c", "user/a/b", "user/a/x", "user/a", "user", "root/e"] {
        assert!(dirs.contains(&d.to_string()));
    }
    assert!(!dirs.contains(&"root".to_string()));
}

#[test]
fn pruning_does_not_mistake_a_longer_name_for_a_directory() {
    let removed = listing(&["user/ab/f"]);
    assert_eq!(remove_empty_dir_all(&removed, &listing(&["user/abc/g"])), listing(&["user/ab"]));
}

#[test]
fn adding_and_removing_bashrc() {
    let mut config = manifest(vec![]);
    let file = File::try_from_resolved(
        &File::resolve("~/.bashrc", "/work", "/home/ana"),
        Some("/home/ana/.bashrc"),
        "/home/ana",
    )
    .unwrap();
    config.append(&[file]);
    assert_eq!(config.files, vec![user(".bashrc")]);
    let plan = config.save(&[], "/home/ana", "/").unwrap();
    assert_eq!(plan, vec![copy("/home/ana/.bashrc", "user/.bashrc")]);
    let archive = archive_after(&[], &plan, &[true]);
    assert_eq!(archive, listing(&["user/.bashrc"]));
    assert!(remove_empty_dir_all(&removed_paths(&plan, &[true]), &archive).is_empty());

    config.remove(&[user(".bashrc")]);
    assert!(config.files.is_empty());
    let plan = config.save(&archive, "/home/ana", "/").unwrap();
    assert_eq!(plan, vec![remove("user/.bashrc")]);
    let left = archive_after(&archive, &plan, &[true]);
    assert!(left.is_empty());
    assert_eq!(remove_empty_dir_all(&removed_paths(&plan, &[true]), &left), listing(&["user"]));
}

#[test]
fn directories_above_a_file() {
    let file: Vec<char> = "user/sub/file".chars().collect();
    let above = |dir: &str| dir_above(&dir.chars().collect(), &file);
    assert!(above("user"));
    assert!(above("user/sub"));
    assert!(!above("user/"));
    assert!(!above("user/sub/file"));
    assert!(!above("user/su"));
    assert!(!above("use"));
    assert!(!above(""));
    assert!(!above("root"));
}

#[test]
fn directories_above_some_file_of_a_listing() {
    let files = listing(&["user/a/f", "root/b"]);
    assert!(above_some(&"user/a".chars().collect(), &files));
    assert!(above_some(&"root".chars().collect(), &files));
    assert!(!above_some(&"user/b".chars().collect(), &files));
    assert!(!above_some(&"user".chars().collect(), &[]));
}

#[test]
fn deeper_directories_are_deleted_first() {
    assert!(dir_before("user/sub/dir", "user/sub"));
    assert!(!dir_before("user/sub", "user/sub/dir"));
    assert!(dir_before("root", "user"));
    assert!(!dir_before("user", "root"));
    assert!(!dir_before("user", "user"));
    assert!(dir_before("zz", "a"));
}

#[test]
fn pruning_gives_one_order_whatever_the_order_of_removal() {
    let one = listing(&["user/b/x", "root/a/y", "user/a/z/w"]);
    let two = listing(&["user/a/z/w", "user/b/x", "root/a/y", "user/b/x"]);
    let expected = listing(&["user/a/z", "root/a", "user/a", "user/b", "root", "user"]);
    assert_eq!(remove_empty_dir_all(&one, &[]), expected);
    assert_eq!(remove_empty_dir_all(&two, &[]), expected);
}

use cup::error::{Error, Failure};
use cup::lifecycle::{conclude, Stage, Work};

#[test]
fn a_change_runs_through_every_stage() {
    let mut stage = Stage::Idle;
    let mut works = vec![];
    for _ in 0..6 {
        works.push(stage.work());
        stage = stage.next(true);
    }
    assert_eq!(
        works,
        vec![Work::Load, Work::Mutate, Work::Reconcile, Work::Persist, Work::Commit, Work::Finish]
    );
    assert_eq!(stage, Stage::Idle);
}

#[test]
fn a_failed_reconciliation_still_leads_to_persisting() {
    assert_eq!(Stage::Mutated.next(false), Stage::Reconciled);
    assert_eq!(Stage::Mutated.next(false).next(true), Stage::Persisted);
    assert_eq!(Stage::Mutated.next(false).next(true).next(true), Stage::Committed);
}

#[test]
fn a_failed_write_ends_the_change_before_the_commit() {
    assert_eq!(Stage::Reconciled.next(false), Stage::Idle);
    assert_eq!(Stage::Idle.next(false), Stage::Idle);
    assert_eq!(Stage::Loaded.next(false), Stage::Idle);
    assert_eq!(Stage::Persisted.next(false), Stage::Idle);
    assert_eq!(Stage::Committed.next(false), Stage::Idle);
}

#[test]
fn conclude_puts_the_fatal_failure_first() {
    let failed = || Err(Error::SyncFailed(vec![Failure::CopyFailed("user/a".to_string())]));
    assert_eq!(conclude(Ok(()), None, None), Ok(()));
    assert_eq!(conclude(failed(), None, None), failed());
    assert_eq!(
        conclude(failed(), Some("disk full".to_string()), None),
        Err(Error::PersistFailed("disk full".to_string()))
    );
    assert_eq!(
        conclude(Ok(()), Some("disk full".to_string()), Some("no git".to_string())),
        Err(Error::PersistFailed("disk full".to_string()))
    );
    assert_eq!(
        conclude(failed(), None, Some("no git".to_string())),
        Err(Error::Io("no git".to_string()))
    );
}

#[test]
fn messages_of_errors() {
    assert_eq!(Error::AlreadyExists("/d/cup.yml".to_string()).message(), "`/d/cup.yml` already exists");
    assert_eq!(Error::NotFound("/d/cup.yml".to_string()).message(), "No manifest at `/d/cup.yml`");
    assert_eq!(Error::MalformedManifest("bad".to_string()).message(), "Serde: `bad`");
    assert_eq!(Error::PathNotFound("/x".to_string()).message(), "Path does not exist: `/x`");
    assert_eq!(
        Error::MalformedArchivePath("home/x".to_string()).message(),
        "Not a file of the archive: `home/x`"
    );
    assert_eq!(Error::InvalidPath("x".to_string()).message(), "Cannot track `x`");
    assert_eq!(
        Error::PersistFailed("disk full".to_string()).message(),
        "Could not write the manifest: `disk full`"
    );
    assert_eq!(Error::InvalidRepository.message(), "Invalid repository");
    assert_eq!(Error::SshKeyNotFound.message(), "Ssh key not found");
    assert_eq!(Error::Io("gone".to_string()).message(), "Io: `gone`");
    assert_eq!(Error::Git2("denied".to_string()).message(), "Git2: `denied`");
    assert_eq!(Error::Regex("unclosed".to_string()).message(), "Regex: `unclosed`");
}

#[test]
fn message_of_a_failed_sync_lists_every_file() {
    let error = Error::SyncFailed(vec![
        Failure::CopyFailed("user/a".to_string()),
        Failure::RemoveFailed("root/b".to_string()),
    ]);
    assert_eq!(
        error.message(),
        "Archive out of sync:\ncould not copy `user/a`\ncould not remove `root/b`"
    );
    assert_eq!(Error::SyncFailed(vec![]).message(), "Archive out of sync:");
    assert_eq!(Failure::CopyFailed("user/a".to_string()).message(), "could not copy `user/a`");
}

use cup::address::File;
use cup::error::Error;

#[test]
fn archive_path_of_user_file() {
    let file = File::User(".bashrc".to_string());
    assert_eq!(file.to_string(), "user/.bashrc");
    assert_eq!(file.user_path(), "~/.bashrc");
    assert_eq!(file.name(), ".bashrc");
}

#[test]
fn archive_path_of_root_file() {
    let file = File::Root("etc/hosts".to_string());
    assert_eq!(file.to_string(), "root/etc/hosts");
    assert_eq!(file.user_path(), "/etc/hosts");
    assert_eq!(file.name(), "etc/hosts");
}

#[test]
fn stored_path_joins_with_one_separator() {
    let user = File::User(".config/nvim/init.lua".to_string());
    let root = File::Root("etc/hosts".to_string());
    assert_eq!(user.stored_path("/home/ana", "/"), "/home/ana/.config/nvim/init.lua");
    assert_eq!(user.stored_path("/home/ana/", "/"), "/home/ana/.config/nvim/init.lua");
    assert_eq!(root.stored_path("/home/ana", "/"), "/etc/hosts");
    assert_eq!(root.stored_path("/home/ana", "/tmp/sandbox"), "/tmp/sandbox/etc/hosts");
}

#[test]
fn from_archive_path_reads_both_scopes() {
    assert_eq!(File::from_archive_path("user/.bashrc").unwrap(), File::User(".bashrc".to_string()));
    assert_eq!(
        File::from_archive_path("root/etc/hosts").unwrap(),
        File::Root("etc/hosts".to_string())
    );
}

#[test]
fn from_archive_path_refuses_other_scopes() {
    for path in ["home/.bashrc", ".bashrc", "user", "user/", "root//etc", "user/../x", "user/a/..", ""] {
        match File::from_archive_path(path) {
            Err(Error::MalformedArchivePath(p)) => assert_eq!(p, path),
            other => panic!("{:?} gave {:?}", path, other),
        }
    }
}

#[test]
fn from_archive_path_inverts_to_string() {
    for file in [File::User("a/b.txt".to_string()), File::Root("..a/b..".to_string())] {
        assert_eq!(File::from_archive_path(&file.to_string()).unwrap(), file);
    }
}

#[test]
fn from_real_path_prefers_the_home_scope() {
    assert_eq!(
        File::from_real_path("/home/ana/.bashrc", "/home/ana").unwrap(),
        File::User(".bashrc".to_string())
    );
    assert_eq!(
        File::from_real_path("/home/ana/.bashrc", "/home/ana/").unwrap(),
        File::User(".bashrc".to_string())
    );
    assert_eq!(
        File::from_real_path("/home/anabel/.bashrc", "/home/ana").unwrap(),
        File::Root("home/anabel/.bashrc".to_string())
    );
    assert_eq!(
        File::from_real_path("/etc/hosts", "/home/ana").unwrap(),
        File::Root("etc/hosts".to_string())
    );
}

#[test]
fn from_real_path_refuses_what_cannot_be_tracked() {
    for path in ["etc/hosts", "/", "", "/etc/../hosts", "//etc"] {
        match File::from_real_path(path, "/home/ana") {
            Err(Error::InvalidPath(p)) => assert_eq!(p, path),
            other => panic!("{:?} gave {:?}", path, other),
        }
    }
}

#[test]
fn resolve_accepts_every_spelling() {
    assert_eq!(File::resolve("/etc/hosts", "/work", "/home/ana"), "/etc/hosts");
    assert_eq!(File::resolve("~/.bashrc", "/work", "/home/ana"), "/home/ana/.bashrc");
    assert_eq!(File::resolve("./notes.txt", "/work", "/home/ana"), "/work/notes.txt");
    assert_eq!(File::resolve("notes.txt", "/work", "/home/ana"), "/work/notes.txt");
    assert_eq!(File::resolve("a", "/work", "/home/ana"), "/work/a");
    assert_eq!(File::resolve("~", "/work", "/home/ana"), "/work/~");
}

#[test]
fn try_from_resolved_reports_missing_paths() {
    match File::try_from_resolved("/home/ana/gone", None, "/home/ana") {
        Err(Error::PathNotFound(p)) => assert_eq!(p, "/home/ana/gone"),
        other => panic!("gave {:?}", other),
    }
    assert_eq!(
        File::try_from_resolved("/home/ana/link", Some("/home/ana/.bashrc"), "/home/ana").unwrap(),
        File::User(".bashrc".to_string())
    );
}

#[test]
fn order_is_by_scope_then_path() {
    let a = File::User("b".to_string());
    let b = File::User("ba".to_string());
    let c = File::Root("a".to_string());
    assert!(a.precedes(&b));
    assert!(!b.precedes(&a));
    assert!(b.precedes(&c));
    assert!(!c.precedes(&a));
    assert!(!a.precedes(&a));
    assert!(File::User("Z".to_string()).precedes(&File::User("a".to_string())));
    assert!(File::User("z".to_string()).precedes(&File::User("é".to_string())));
}

#[test]
fn validity_of_relative_paths() {
    assert!(File::User("a/b".to_string()).is_valid());
    assert!(File::User("a/..b/c".to_string()).is_valid());
    assert!(File::User("...".to_string()).is_valid());
    assert!(!File::User("".to_string()).is_valid());
    assert!(!File::User("/a".to_string()).is_valid());
    assert!(!File::User("..".to_string()).is_valid());
    assert!(!File::User("a/../b".to_string()).is_valid());
    assert!(!File::Root("a/..".to_string()).is_valid());
}

#[test]
fn same_and_clone_agree_with_equality() {
    let a = File::User("a".to_string());
    let b = File::Root("a".to_string());
    assert!(a.same(&a.clone()));
    assert!(!a.same(&b));
    assert!(!a.same(&File::User("b".to_string())));
    assert_eq!(a.clone(), a);
    assert_ne!(a, b);
}

#[test]
fn from_real_path_inverts_stored_path() {
    for file in [File::User(".config/a".to_string()), File::Root("etc/hosts".to_string())] {
        let path = file.stored_path("/home/ana", "/");
        assert_eq!(File::from_real_path(&path, "/home/ana").unwrap(), file);
    }
}

use cup::address::File;
use cup::directories::{parent, Directories, Environment};
use cup::import::Transfer;
use cup::manifest::Config;

fn env(data: Option<&str>, cache: Option<&str>) -> Environment {
    Environment {
        home: "/home/ana".to_string(),
        data_home: data.map(|s| s.to_string()),
        cache_home: cache.map(|s| s.to_string()),
    }
}

fn manifest(path: &str, files: Vec<File>) -> Config {
    Config { id: "id".to_string(), name: "desk".to_string(), files, path: path.to_string() }
}

#[test]
fn parent_is_what_stands_before_the_last_separator() {
    assert_eq!(parent("/data/desk/cup.yml"), "/data/desk");
    assert_eq!(parent("/cup.yml"), "/");
    assert_eq!(parent("cup.yml"), "");
    assert_eq!(parent(""), "");
    assert_eq!(parent("/"), "/");
    assert_eq!(parent("a/b"), "a");
}

#[test]
fn home_and_root_directories() {
    assert_eq!(Directories::Home.path(&env(None, None)), "/home/ana");
    assert_eq!(Directories::Root.path(&env(None, None)), "/");
}

#[test]
fn data_and_cache_follow_the_environment() {
    assert_eq!(Directories::Data.path(&env(Some("/srv/data"), None)), "/srv/data");
    assert_eq!(Directories::Cache.path(&env(None, Some("/srv/cache"))), "/srv/cache");
}

#[test]
fn data_and_cache_default_below_home() {
    assert_eq!(Directories::Data.path(&env(None, Some("/x"))), "/home/ana/.local/share/cup");
    assert_eq!(Directories::Cache.path(&env(Some("/x"), None)), "/home/ana/.cache/cup");
}

#[test]
fn files_lie_beside_the_manifest() {
    let config = manifest("/data/desk/cup.yml", vec![]);
    assert_eq!(Directories::Files(&config).path(&env(None, None)), "/data/desk/files");
    assert_eq!(
        Directories::Files(&config).join(&env(None, None), "user/.bashrc"),
        "/data/desk/files/user/.bashrc"
    );
}

#[test]
fn join_appends_below_the_directory() {
    assert_eq!(Directories::Data.join(&env(None, None), "desk"), "/home/ana/.local/share/cup/desk");
    assert_eq!(Directories::Root.join(&env(None, None), "etc/hosts"), "/etc/hosts");
    assert_eq!(Directories::Home.join(&env(None, None), ".ssh"), "/home/ana/.ssh");
}

#[test]
fn import_plan_keeps_what_is_in_the_way() {
    let config = manifest(
        "/data/desk/cup.yml",
        vec![File::User(".bashrc".to_string()), File::Root("etc/hosts".to_string())],
    );
    let plan = config.import_plan("/home/ana", "/", false, &[true, false]);
    assert_eq!(
        plan,
        vec![
            Transfer {
                from: "/data/desk/files/user/.bashrc".to_string(),
                to: "/home/ana/.bashrc".to_string(),
                backup: Some("/home/ana/.bashrc.bcup".to_string()),
            },
            Transfer {
                from: "/data/desk/files/root/etc/hosts".to_string(),
                to: "/etc/hosts".to_string(),
                backup: None,
            },
        ]
    );
}

#[test]
fn import_plan_overwrites_when_told_to() {
    let config = manifest("/data/desk/cup.yml", vec![File::User("a".to_string())]);
    let plan = config.import_plan("/home/ana", "/", true, &[true]);
    assert_eq!(plan.len(), 1);
    assert_eq!(plan[0].backup, None);
    let plan = config.import_plan("/home/ana", "/", false, &[]);
    assert_eq!(plan[0].backup, None);
    assert_eq!(plan[0].to, "/home/ana/a");
}

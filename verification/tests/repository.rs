use cup::error::Error;
use cup::repository::{ends_with, pattern, ssh_key, Remote};

fn some(s: &str) -> Option<String> {
    Some(s.to_string())
}

#[test]
fn short_reference_goes_to_github_with_the_key() {
    assert_eq!(
        Remote::parse("ana/dotfiles"),
        Ok(Remote {
            url: "git@github.com:ana/dotfiles".to_string(),
            name: "dotfiles".to_string(),
            with_key: true,
        })
    );
}

#[test]
fn short_reference_loses_its_git_ending() {
    let remote = Remote::parse("ana/dot.files.git").unwrap();
    assert_eq!(remote.url, "git@github.com:ana/dot.files");
    assert_eq!(remote.name, "dot.files");
    assert!(remote.with_key);
}

#[test]
fn ssh_reference_is_cloned_as_it_stands() {
    assert_eq!(
        Remote::parse("git@gitlab.com:ana/dotfiles.git"),
        Ok(Remote {
            url: "git@gitlab.com:ana/dotfiles.git".to_string(),
            name: "dotfiles".to_string(),
            with_key: false,
        })
    );
}

#[test]
fn url_reference_is_cloned_as_it_stands() {
    assert_eq!(
        Remote::parse("https://example.org/ana/dotfiles"),
        Ok(Remote {
            url: "https://example.org/ana/dotfiles".to_string(),
            name: "dotfiles".to_string(),
            with_key: false,
        })
    );
    assert_eq!(Remote::parse("http://example.org/ana/d").unwrap().name, "d");
    assert_eq!(Remote::parse("git://example.org/ana/d.git").unwrap().name, "d");
}

#[test]
fn other_references_are_refused() {
    for reference in ["", "dotfiles", "ana/", "/dotfiles", "a/b/c", "ftp://example.org/ana/d", "ana/dot files"] {
        assert_eq!(Remote::parse(reference), Err(Error::InvalidRepository), "{:?}", reference);
    }
}

#[test]
fn pattern_has_the_named_groups() {
    for group in ["protocol", "secure", "ssh", "website", "username", "repository"] {
        assert!(pattern().contains(&format!("(?P<{}>", group)));
    }
}

#[test]
fn from_groups_decides_by_what_was_found() {
    assert_eq!(
        Remote::from_groups("x", false, some("ana"), some("d"), None, None),
        Err(Error::InvalidRepository)
    );
    assert_eq!(
        Remote::from_groups("x", true, None, some("d"), None, None),
        Err(Error::InvalidRepository)
    );
    assert_eq!(
        Remote::from_groups("x", true, some("ana"), None, some("git@h"), None),
        Err(Error::InvalidRepository)
    );
    assert_eq!(
        Remote::from_groups("ana/d", true, some("ana"), some("d"), None, None),
        Ok(Remote { url: "git@github.com:ana/d".to_string(), name: "d".to_string(), with_key: true })
    );
    assert_eq!(
        Remote::from_groups("git@h:ana/d", true, some("ana"), some("d"), some("git@h"), None),
        Ok(Remote { url: "git@h:ana/d".to_string(), name: "d".to_string(), with_key: false })
    );
    assert_eq!(
        Remote::from_groups("https://h/ana/d", true, some("ana"), some("d"), None, some("h")),
        Ok(Remote { url: "https://h/ana/d".to_string(), name: "d".to_string(), with_key: false })
    );
}

#[test]
fn ssh_key_is_the_first_public_key_without_its_ending() {
    let names: Vec<String> =
        ["known_hosts", "id_rsa", "id_rsa.pub", "id_ed25519.pub", "id_ed25519", "config"]
            .iter()
            .map(|s| s.to_string())
            .collect();
    assert_eq!(ssh_key("/home/ana/.ssh", &names), Ok("/home/ana/.ssh/id_ed25519".to_string()));
    assert_eq!(ssh_key("/home/ana/.ssh/", &names[..3]), Ok("/home/ana/.ssh/id_rsa".to_string()));
}

#[test]
fn ssh_key_needs_a_public_key() {
    let names: Vec<String> = ["id_rsa", "pub", "a.pubs", ".pu"].iter().map(|s| s.to_string()).collect();
    assert_eq!(ssh_key("/home/ana/.ssh", &names), Err(Error::SshKeyNotFound));
    assert_eq!(ssh_key("/home/ana/.ssh", &[]), Err(Error::SshKeyNotFound));
}

#[test]
fn ssh_key_of_a_bare_ending() {
    let names = vec![".pub".to_string()];
    assert_eq!(ssh_key("/k", &names), Ok("/k/".to_string()));
}

#[test]
fn ends_with_compares_the_tail() {
    let s: Vec<char> = "id_rsa.pub".chars().collect();
    let p: Vec<char> = ".pub".chars().collect();
    assert!(ends_with(&s, &p));
    assert!(ends_with(&p, &p));
    assert!(ends_with(&s, &vec![]));
    assert!(!ends_with(&p, &s));
    assert!(!ends_with(&"id_rsa.pud".chars().collect(), &p));
}

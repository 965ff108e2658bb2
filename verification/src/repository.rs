//! Recognising a reference to a remote repository, and choosing the key to
//! reach it with.

use vstd::prelude::*;
use vstd::string::*;
use crate::address::{lemma_text_order_irreflexive, lemma_text_order_transitive, text_before,
    text_precedes};
use crate::error::Error;
use crate::text::{chars_of, join, join_paths};

verus! {

/// Whether the regular expression `pattern` matches somewhere in `text`, as
/// the `regex` crate decides it.
pub uninterp spec fn regex_matches(pattern: Seq<char>, text: Seq<char>) -> bool;

/// What the group named `group` of the regular expression `pattern` holds in
/// the leftmost match in `text`, as the `regex` crate decides it; `None` when
/// there is no match, no such group, or the group took no part in the match.
pub uninterp spec fn regex_capture(pattern: Seq<char>, text: Seq<char>, group: Seq<char>) -> Option<
    Seq<char>,
>;

/// The view of an optional text.
pub open spec fn optional_text(found: Option<String>) -> Option<Seq<char>> {
    match found {
        Some(s) => Some(s@),
        None => None,
    }
}

/// `regex::Regex::new` followed by `Regex::is_match`: where the pattern
/// compiles, the answer is the crate's verdict on `pattern` and `text`, of
/// which nothing more is claimed. Where it does not compile, the message of
/// the crate's error comes back.
#[verifier::external_body]
fn is_match(pattern: &str, text: &str) -> (r: Result<bool, String>)
    ensures
        r matches Ok(found) ==> found == regex_matches(pattern@, text@),
{
    match regex::Regex::new(pattern) {
        Ok(re) => Ok(re.is_match(text)),
        Err(e) => Err(e.to_string()),
    }
}

/// `regex::Regex::new` followed by `Regex::captures` and `Captures::name`:
/// where the pattern compiles, the answer is the text of the named group in
/// the leftmost match, as the crate finds it, of which nothing more is
/// claimed. Where it does not compile, the message of the crate's error comes
/// back.
#[verifier::external_body]
fn capture(pattern: &str, text: &str, group: &str) -> (r: Result<Option<String>, String>)
    ensures
        r matches Ok(found) ==> optional_text(found) == regex_capture(pattern@, text@, group@),
{
    match regex::Regex::new(pattern) {
        Ok(re) => Ok(re.captures(text).and_then(|c| c.name(group)).map(|m| m.as_str().to_string())),
        Err(e) => Err(e.to_string()),
    }
}

/// The forms of a reference to a repository: `<user>/<repository>`,
/// `git@<host>:<user>/<repository>` and
/// `<protocol>://<host>/<user>/<repository>`, each with or without `.git`.
pub open spec fn reference_pattern() -> Seq<char> {
    r"^(?:(?:(?P<protocol>git|http(?P<secure>s)?)|(?P<ssh>git@[\w\d\.:]+))(?::(?://(?P<website>[\w\d\.\[\]:_-]+?)/)?))?(?P<username>[\w\d-]+)/(?P<repository>[\w\d\._-]+?)(?:\.git)?$"@
}

/// The pattern that a reference to a repository has to match.
pub fn pattern() -> (r: &'static str)
    ensures
        r@ == reference_pattern(),
{
    r"^(?:(?:(?P<protocol>git|http(?P<secure>s)?)|(?P<ssh>git@[\w\d\.:]+))(?::(?://(?P<website>[\w\d\.\[\]:_-]+?)/)?))?(?P<username>[\w\d-]+)/(?P<repository>[\w\d\._-]+?)(?:\.git)?$"
}

/// The mathematical value of a [`Remote`].
pub struct Origin {
    pub url: Seq<char>,
    pub name: Seq<char>,
    pub with_key: bool,
}

/// Where to clone a repository from.
#[derive(Debug, PartialEq, Eq)]
pub struct Remote {
    /// The address to clone from.
    pub url: String,
    /// The name of the repository, which names the directory to clone into.
    pub name: String,
    /// Whether the clone has to present the user's key.
    pub with_key: bool,
}

impl View for Remote {
    type V = Origin;

    open spec fn view(&self) -> Origin {
        Origin { url: self.url@, name: self.name@, with_key: self.with_key }
    }
}

/// The address of the repository `repository` of `user` at GitHub.
pub open spec fn github_url(user: Seq<char>, repository: Seq<char>) -> Seq<char> {
    "git@github.com:"@ + user + "/"@ + repository
}

/// What a reference stands for, given what the pattern found in it: nothing
/// when it did not match; the reference itself when it names a host; else the
/// repository of that user at GitHub, reached with the user's key.
pub open spec fn origin_of(
    reference: Seq<char>,
    matched: bool,
    user: Option<Seq<char>>,
    repository: Option<Seq<char>>,
    ssh: Option<Seq<char>>,
    website: Option<Seq<char>>,
) -> Option<Origin> {
    if !matched || user is None || repository is None {
        None
    } else if ssh is Some || website is Some {
        Some(Origin { url: reference, name: repository->Some_0, with_key: false })
    } else {
        Some(
            Origin {
                url: github_url(user->Some_0, repository->Some_0),
                name: repository->Some_0,
                with_key: true,
            },
        )
    }
}

/// What the reference stands for, going by what the `regex` crate finds of
/// the pattern in it.
pub open spec fn origin(reference: Seq<char>) -> Option<Origin> {
    origin_of(
        reference,
        regex_matches(reference_pattern(), reference),
        regex_capture(reference_pattern(), reference, "username"@),
        regex_capture(reference_pattern(), reference, "repository"@),
        regex_capture(reference_pattern(), reference, "ssh"@),
        regex_capture(reference_pattern(), reference, "website"@),
    )
}

impl Remote {
    /// Where to clone from, given the reference and what the pattern found in
    /// it: whether it matched, and the texts of the groups for the user, the
    /// repository, the `git@` host and the host behind `://`. A reference
    /// that did not match is answered with `InvalidRepository`.
    pub fn from_groups(
        reference: &str,
        matched: bool,
        user: Option<String>,
        repository: Option<String>,
        ssh: Option<String>,
        website: Option<String>,
    ) -> (r: Result<Remote, Error>)
        ensures
            match origin_of(
                reference@,
                matched,
                optional_text(user),
                optional_text(repository),
                optional_text(ssh),
                optional_text(website),
            ) {
                Some(o) => r matches Ok(remote) && remote@ == o,
                None => r matches Err(Error::InvalidRepository),
            },
    {
        if !matched {
            return Err(Error::InvalidRepository);
        }
        match (user, repository) {
            (Some(user), Some(repository)) => {
                if ssh.is_some() || website.is_some() {
                    Ok(Remote { url: String::from_str(reference), name: repository, with_key: false })
                } else {
                    let mut url = String::from_str("git@github.com:");
                    url.append(user.as_str());
                    url.append("/");
                    url.append(repository.as_str());
                    Ok(Remote { url, name: repository, with_key: true })
                }
            },
            _ => Err(Error::InvalidRepository),
        }
    }

    /// Where to clone from, given a reference to a repository. A reference in
    /// none of the accepted forms is answered with `InvalidRepository`; where
    /// the pattern itself is refused, `Regex` carries the message.
    pub fn parse(reference: &str) -> (r: Result<Remote, Error>)
        ensures
            match r {
                Ok(remote) => origin(reference@) == Some(remote@),
                Err(Error::InvalidRepository) => origin(reference@) is None,
                Err(Error::Regex(_)) => true,
                Err(_) => false,
            },
    {
        let matched = match is_match(pattern(), reference) {
            Ok(found) => found,
            Err(message) => {
                return Err(Error::Regex(message));
            },
        };
        let user = match capture(pattern(), reference, "username") {
            Ok(found) => found,
            Err(message) => {
                return Err(Error::Regex(message));
            },
        };
        let repository = match capture(pattern(), reference, "repository") {
            Ok(found) => found,
            Err(message) => {
                return Err(Error::Regex(message));
            },
        };
        let ssh = match capture(pattern(), reference, "ssh") {
            Ok(found) => found,
            Err(message) => {
                return Err(Error::Regex(message));
            },
        };
        let website = match capture(pattern(), reference, "website") {
            Ok(found) => found,
            Err(message) => {
                return Err(Error::Regex(message));
            },
        };
        Remote::from_groups(reference, matched, user, repository, ssh, website)
    }
}

/// The ending of the name of a public key.
pub open spec fn public_ending() -> Seq<char> {
    seq!['.', 'p', 'u', 'b']
}

/// `true` when `name` names a public key: it ends in `.pub`.
pub open spec fn is_public_key(name: Seq<char>) -> bool {
    public_ending().is_suffix_of(name)
}

/// The names that a list of strings holds, in order.
pub open spec fn names_of(list: Seq<String>) -> Seq<Seq<char>> {
    list.map_values(|s: String| s@)
}

/// Whether `p` is a suffix of `s`.
pub fn ends_with(s: &Vec<char>, p: &Vec<char>) -> (r: bool)
    ensures
        r == p@.is_suffix_of(s@),
{
    if p.len() > s.len() {
        return false;
    }
    let shift = s.len() - p.len();
    let mut i: usize = 0;
    while i < p.len()
        invariant
            i <= p.len() <= s.len(),
            shift == s.len() - p.len(),
            forall|k: int| 0 <= k < i ==> s@[shift + k] == p@[k],
        decreases p.len() - i,
    {
        if s[shift + i] != p[i] {
            assert(s@.subrange(s@.len() - p@.len(), s@.len() as int)[i as int] != p@[i as int]);
            return false;
        }
        i += 1;
    }
    assert(s@.subrange(s@.len() - p@.len(), s@.len() as int) =~= p@);
    true
}

/// The private key to reach a remote repository with: of the files of the key
/// directory `dir`, whose names are `names`, the public key that comes first
/// in the order of texts decides, and the key is the file of that name
/// without `.pub`. Without a public key the answer is `SshKeyNotFound`.
pub fn ssh_key(dir: &str, names: &[String]) -> (r: Result<String, Error>)
    ensures
        match r {
            Ok(key) => exists|k: int|
                0 <= k < names@.len() && is_public_key(#[trigger] names_of(names@)[k]) && key@
                    == join(dir@, names_of(names@)[k].take(names_of(names@)[k].len() - 4)) && (
                forall|j: int|
                    0 <= j < names@.len() && is_public_key(#[trigger] names_of(names@)[j])
                        ==> !text_precedes(names_of(names@)[j], names_of(names@)[k])),
            Err(Error::SshKeyNotFound) => forall|j: int|
                0 <= j < names@.len() ==> !is_public_key(#[trigger] names_of(names@)[j]),
            Err(_) => false,
        },
{
    let ending = chars_of(".pub");
    proof {
        reveal_strlit(".pub");
        assert(".pub"@ =~= public_ending());
    }
    let ghost all = names_of(names@);
    let mut best: Option<usize> = None;
    let mut i: usize = 0;
    while i < names.len()
        invariant
            i <= names.len(),
            all == names_of(names@),
            ending@ == public_ending(),
            match best {
                Some(b) => b < i && is_public_key(all[b as int]) && (forall|j: int|
                    0 <= j < i && is_public_key(#[trigger] all[j]) ==> !text_precedes(
                        all[j],
                        all[b as int],
                    )),
                None => forall|j: int| 0 <= j < i ==> !is_public_key(#[trigger] all[j]),
            },
        decreases names.len() - i,
    {
        let name = chars_of(names[i].as_str());
        assert(all[i as int] == name@);
        if ends_with(&name, &ending) {
            match best {
                None => {
                    best = Some(i);
                    proof {
                        lemma_text_order_irreflexive(all[i as int], 0);
                    }
                },
                Some(b) => {
                    assert(all[b as int] == names@[b as int]@);
                    if text_before(names[i].as_str(), names[b].as_str()) {
                        proof {
                            lemma_text_order_irreflexive(all[i as int], 0);
                            assert forall|j: int|
                                0 <= j < i + 1 && is_public_key(
                                    #[trigger] all[j],
                                ) implies !text_precedes(all[j], all[i as int]) by {
                                if j < i && text_precedes(all[j], all[i as int]) {
                                    lemma_text_order_transitive(
                                        all[j],
                                        all[i as int],
                                        all[b as int],
                                        0,
                                    );
                                }
                            }
                        }
                        best = Some(i);
                    }
                },
            }
        }
        i += 1;
    }
    match best {
        None => Err(Error::SshKeyNotFound),
        Some(b) => {
            let name = names[b].as_str();
            assert(all[b as int] == name@);
            let n = name.unicode_len();
            let stem = String::from_str(name.substring_char(0, n - 4));
            Ok(join_paths(dir, stem.as_str()))
        },
    }
}

} // verus!

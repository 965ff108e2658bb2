//! What can go wrong while a manifest is changed, reconciled or stored.

use vstd::prelude::*;
use vstd::string::*;

verus! {

/// One file that the reconciliation could not bring in line.
#[derive(Debug, PartialEq, Eq)]
pub enum Failure {
    /// The tracked file could not be copied into the archive; holds the
    /// archive-relative path that stays missing.
    CopyFailed(String),
    /// The archive file could not be deleted; holds its archive-relative path.
    RemoveFailed(String),
}

/// The mathematical value of a [`Failure`].
pub enum Fault {
    CopyFailed(Seq<char>),
    RemoveFailed(Seq<char>),
}

impl View for Failure {
    type V = Fault;

    open spec fn view(&self) -> Fault {
        match self {
            Failure::CopyFailed(path) => Fault::CopyFailed(path@),
            Failure::RemoveFailed(path) => Fault::RemoveFailed(path@),
        }
    }
}

/// The faults that a list of failures holds, in order.
pub open spec fn faults(list: Seq<Failure>) -> Seq<Fault> {
    list.map_values(|f: Failure| f@)
}

/// What can go wrong.
#[derive(Debug, PartialEq, Eq)]
pub enum Error {
    /// A manifest already exists at the target location.
    AlreadyExists(String),
    /// No manifest document at the given location.
    NotFound(String),
    /// The manifest document could not be read back into a manifest.
    MalformedManifest(String),
    /// A path given by the user does not name an existing file.
    PathNotFound(String),
    /// A file in the archive lies outside the `user/` and `root/` scopes.
    MalformedArchivePath(String),
    /// A path that cannot be tracked: not absolute, or with a `..` segment.
    InvalidPath(String),
    /// Files that a reconciliation failed on, every one of them.
    SyncFailed(Vec<Failure>),
    /// The manifest document could not be written.
    PersistFailed(String),
    /// A repository reference in none of the accepted forms.
    InvalidRepository,
    /// No key to reach a remote repository with.
    SshKeyNotFound,
    Io(String),
    Git2(String),
    Regex(String),
}

impl Fault {
    /// How the failure is told: what was tried, and the archive path.
    pub open spec fn message(self) -> Seq<char> {
        match self {
            Fault::CopyFailed(path) => "could not copy `"@ + path + "`"@,
            Fault::RemoveFailed(path) => "could not remove `"@ + path + "`"@,
        }
    }
}

/// The messages of `list`, each on a line of its own.
pub open spec fn fault_lines(list: Seq<Fault>) -> Seq<char>
    decreases list.len(),
{
    if list.len() == 0 {
        Seq::empty()
    } else {
        fault_lines(list.drop_last()) + "\n"@ + list.last().message()
    }
}

impl Failure {
    /// How the failure is told: what was tried, and the archive path.
    pub fn message(&self) -> (r: String)
        ensures
            r@ == self@.message(),
    {
        match self {
            Failure::CopyFailed(path) => {
                let mut out = String::from_str("could not copy `");
                out.append(path.as_str());
                out.append("`");
                out
            },
            Failure::RemoveFailed(path) => {
                let mut out = String::from_str("could not remove `");
                out.append(path.as_str());
                out.append("`");
                out
            },
        }
    }
}

/// `head`, then `text` between backquotes.
pub open spec fn quoted(head: Seq<char>, text: Seq<char>) -> Seq<char> {
    head + "`"@ + text + "`"@
}

/// `head`, then `text` between backquotes.
fn quote(head: &str, text: &str) -> (r: String)
    ensures
        r@ == quoted(head@, text@),
{
    let mut out = String::from_str(head);
    out.append("`");
    out.append(text);
    out.append("`");
    out
}

impl Error {
    /// How the error is told to the user.
    pub open spec fn message_of(self) -> Seq<char> {
        match self {
            Error::AlreadyExists(path) => "`"@ + path@ + "` already exists"@,
            Error::NotFound(path) => quoted("No manifest at "@, path@),
            Error::MalformedManifest(message) => quoted("Serde: "@, message@),
            Error::PathNotFound(path) => quoted("Path does not exist: "@, path@),
            Error::MalformedArchivePath(path) => quoted("Not a file of the archive: "@, path@),
            Error::InvalidPath(path) => quoted("Cannot track "@, path@),
            Error::SyncFailed(list) => "Archive out of sync:"@ + fault_lines(faults(list@)),
            Error::PersistFailed(message) => quoted("Could not write the manifest: "@, message@),
            Error::InvalidRepository => "Invalid repository"@,
            Error::SshKeyNotFound => "Ssh key not found"@,
            Error::Io(message) => quoted("Io: "@, message@),
            Error::Git2(message) => quoted("Git2: "@, message@),
            Error::Regex(message) => quoted("Regex: "@, message@),
        }
    }

    /// How the error is told to the user.
    pub fn message(&self) -> (r: String)
        ensures
            r@ == self.message_of(),
    {
        match self {
            Error::AlreadyExists(path) => {
                let mut out = String::from_str("`");
                out.append(path.as_str());
                out.append("` already exists");
                out
            },
            Error::NotFound(path) => quote("No manifest at ", path.as_str()),
            Error::MalformedManifest(message) => quote("Serde: ", message.as_str()),
            Error::PathNotFound(path) => quote("Path does not exist: ", path.as_str()),
            Error::MalformedArchivePath(path) => quote("Not a file of the archive: ", path.as_str()),
            Error::InvalidPath(path) => quote("Cannot track ", path.as_str()),
            Error::SyncFailed(list) => {
                let mut out = String::from_str("Archive out of sync:");
                let ghost head = out@;
                let mut i: usize = 0;
                assert(faults(list@).take(0) =~= Seq::<Fault>::empty());
                assert(head + fault_lines(faults(list@).take(0)) =~= head);
                while i < list.len()
                    invariant
                        i <= list.len(),
                        out@ == head + fault_lines(faults(list@).take(i as int)),
                    decreases list.len() - i,
                {
                    let ghost before = out@;
                    let line = list[i].message();
                    out.append("\n");
                    out.append(line.as_str());
                    proof {
                        let next = faults(list@).take(i + 1);
                        assert(next.drop_last() =~= faults(list@).take(i as int));
                        assert(next.last() == list@[i as int]@);
                        assert(out@ =~= head + fault_lines(next));
                    }
                    i += 1;
                }
                assert(faults(list@).take(list@.len() as int) =~= faults(list@));
                out
            },
            Error::PersistFailed(message) => quote("Could not write the manifest: ", message.as_str()),
            Error::InvalidRepository => String::from_str("Invalid repository"),
            Error::SshKeyNotFound => String::from_str("Ssh key not found"),
            Error::Io(message) => quote("Io: ", message.as_str()),
            Error::Git2(message) => quote("Git2: ", message.as_str()),
            Error::Regex(message) => quote("Regex: ", message.as_str()),
        }
    }
}

} // verus!

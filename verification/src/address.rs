//! The identity of a tracked file: a scope and a path relative to it.

use vstd::prelude::*;
use vstd::string::*;
use crate::error::Error;
use crate::text::{below, chars_of, is_valid_relative, join, join_paths, starts_with, strip_base,
    tail_from, valid_relative};

verus! {

/// The archive directory of the files that live under the user's home.
pub open spec fn user_scope() -> Seq<char> {
    seq!['u', 's', 'e', 'r', '/']
}

/// The archive directory of the files that live under the filesystem root.
pub open spec fn root_scope() -> Seq<char> {
    seq!['r', 'o', 'o', 't', '/']
}

/// The mathematical value of a [`File`].
pub enum Address {
    User(Seq<char>),
    Root(Seq<char>),
}

impl Address {
    /// The path relative to the scope.
    pub open spec fn relative(self) -> Seq<char> {
        match self {
            Address::User(rel) => rel,
            Address::Root(rel) => rel,
        }
    }

    /// The invariant of an address: its relative path is not empty, does not
    /// start with a separator and has no `..` segment.
    pub open spec fn is_valid(self) -> bool {
        valid_relative(self.relative())
    }

    /// Where the file lies in the archive: `user/<relative>` or
    /// `root/<relative>`.
    pub open spec fn archive_path(self) -> Seq<char> {
        match self {
            Address::User(rel) => user_scope() + rel,
            Address::Root(rel) => root_scope() + rel,
        }
    }

    /// How the file is shown to the user: `~/<relative>` or `/<relative>`.
    pub open spec fn display_path(self) -> Seq<char> {
        match self {
            Address::User(rel) => seq!['~', '/'] + rel,
            Address::Root(rel) => seq!['/'] + rel,
        }
    }

    /// Where the file lives on the real filesystem.
    pub open spec fn real_path(self, home: Seq<char>, root: Seq<char>) -> Seq<char> {
        match self {
            Address::User(rel) => join(home, rel),
            Address::Root(rel) => join(root, rel),
        }
    }

    /// The strict order of addresses: every `User` before every `Root`, and
    /// within a scope by relative path.
    pub open spec fn precedes(self, other: Address) -> bool {
        match (self, other) {
            (Address::User(a), Address::User(b)) => text_precedes(a, b),
            (Address::User(_), Address::Root(_)) => true,
            (Address::Root(_), Address::User(_)) => false,
            (Address::Root(a), Address::Root(b)) => text_precedes(a, b),
        }
    }
}

/// Whether `a` comes before `b` from index `i` on, given that they agree
/// before it: the first differing character decides, and a proper prefix
/// comes first.
pub open spec fn precedes_from(a: Seq<char>, b: Seq<char>, i: int) -> bool
    decreases a.len() - i,
{
    if i < 0 || i >= b.len() {
        false
    } else if i >= a.len() {
        true
    } else if a[i] != b[i] {
        a[i] < b[i]
    } else {
        precedes_from(a, b, i + 1)
    }
}

/// The strict lexicographic order of texts by character code.
pub open spec fn text_precedes(a: Seq<char>, b: Seq<char>) -> bool {
    precedes_from(a, b, 0)
}

/// The address that an archive-relative path stands for, if it has the form
/// `user/<relative>` or `root/<relative>` with a valid relative path.
pub open spec fn parse_archive_path(path: Seq<char>) -> Option<Address> {
    if user_scope().is_prefix_of(path) && valid_relative(path.skip(5)) {
        Some(Address::User(path.skip(5)))
    } else if root_scope().is_prefix_of(path) && valid_relative(path.skip(5)) {
        Some(Address::Root(path.skip(5)))
    } else {
        None
    }
}

/// The address of the real file at `path`: in the user scope when `path` lies
/// under `home`, else in the root scope when `path` is absolute.
pub open spec fn locate(path: Seq<char>, home: Seq<char>) -> Option<Address> {
    if below(home, path) is Some && valid_relative(below(home, path)->Some_0) {
        Some(Address::User(below(home, path)->Some_0))
    } else if below(seq!['/'], path) is Some && valid_relative(below(seq!['/'], path)->Some_0) {
        Some(Address::Root(below(seq!['/'], path)->Some_0))
    } else {
        None
    }
}

/// The real path that a spelling given by the user stands for: an absolute
/// path stands for itself, `~/<rest>` lies under `home`, `./<rest>` and any
/// other spelling lie under `cwd`.
pub open spec fn resolved(value: Seq<char>, cwd: Seq<char>, home: Seq<char>) -> Seq<char> {
    if value.len() > 0 && value[0] == '/' {
        value
    } else if seq!['~', '/'].is_prefix_of(value) {
        join(home, value.skip(2))
    } else if seq!['.', '/'].is_prefix_of(value) {
        join(cwd, value.skip(2))
    } else {
        join(cwd, value)
    }
}

/// A tracked file.
#[derive(Debug)]
pub enum File {
    /// A path relative to the user's home directory.
    User(String),
    /// A path relative to the filesystem root.
    Root(String),
}

impl View for File {
    type V = Address;

    open spec fn view(&self) -> Address {
        match self {
            File::User(rel) => Address::User(rel@),
            File::Root(rel) => Address::Root(rel@),
        }
    }
}

impl Clone for File {
    fn clone(&self) -> (r: Self)
        ensures
            r@ == self@,
    {
        match self {
            File::User(rel) => File::User(rel.clone()),
            File::Root(rel) => File::Root(rel.clone()),
        }
    }
}

impl PartialEq for File {
    fn eq(&self, other: &File) -> (r: bool) {
        self.same(other)
    }
}

impl vstd::std_specs::cmp::PartialEqSpecImpl for File {
    open spec fn obeys_eq_spec() -> bool {
        true
    }

    open spec fn eq_spec(&self, other: &File) -> bool {
        self@ == other@
    }
}

impl Eq for File {

}

impl File {
    /// The path relative to the scope.
    pub fn name(&self) -> (r: &String)
        ensures
            r@ == self@.relative(),
    {
        match self {
            File::User(file) => file,
            File::Root(file) => file,
        }
    }

    /// Whether both name the same file.
    pub fn same(&self, other: &File) -> (r: bool)
        ensures
            r == (self@ == other@),
    {
        match (self, other) {
            (File::User(a), File::User(b)) => *a == *b,
            (File::Root(a), File::Root(b)) => *a == *b,
            _ => false,
        }
    }

    /// Whether the relative path meets the invariant of an address.
    pub fn is_valid(&self) -> (r: bool)
        ensures
            r == self@.is_valid(),
    {
        let rel = chars_of(self.name().as_str());
        is_valid_relative(&rel)
    }

    /// How the file is shown to the user: `~/<relative>` or `/<relative>`.
    pub fn user_path(&self) -> (r: String)
        ensures
            r@ == self@.display_path(),
    {
        proof {
            reveal_strlit("~/");
            reveal_strlit("/");
            assert("~/"@ =~= seq!['~', '/']);
            assert("/"@ =~= seq!['/']);
        }
        match self {
            File::User(file) => String::from_str("~/").concat(file.as_str()),
            File::Root(file) => String::from_str("/").concat(file.as_str()),
        }
    }

    /// Where the file lies in the archive, relative to the archive's root.
    pub fn to_string(&self) -> (r: String)
        ensures
            r@ == self@.archive_path(),
    {
        proof {
            reveal_strlit("user/");
            reveal_strlit("root/");
            assert("user/"@ =~= user_scope());
            assert("root/"@ =~= root_scope());
        }
        match self {
            File::User(file) => String::from_str("user/").concat(file.as_str()),
            File::Root(file) => String::from_str("root/").concat(file.as_str()),
        }
    }

    /// Where the file lives on the real filesystem, given the user's home
    /// directory and the filesystem root.
    pub fn stored_path(&self, home: &str, root: &str) -> (r: String)
        ensures
            r@ == self@.real_path(home@, root@),
    {
        match self {
            File::User(file) => join_paths(home, file.as_str()),
            File::Root(file) => join_paths(root, file.as_str()),
        }
    }

    /// Reads an archive-relative path of the form `user/<relative>` or
    /// `root/<relative>`, where `<relative>` is not empty, does not start
    /// with a separator and has no `..` segment. Any other path is answered
    /// with `MalformedArchivePath`, which carries the path.
    pub fn from_archive_path(path: &str) -> (r: Result<File, Error>)
        ensures
            match parse_archive_path(path@) {
                Some(address) => r matches Ok(file) && file@ == address,
                None => r matches Err(Error::MalformedArchivePath(p)) && p@ == path@,
            },
    {
        proof {
            reveal_strlit("user/");
            reveal_strlit("root/");
            assert("user/"@ =~= user_scope());
            assert("root/"@ =~= root_scope());
        }
        let chars = chars_of(path);
        let user = chars_of("user/");
        let root = chars_of("root/");
        let in_user = starts_with(&chars, &user);
        let in_root = starts_with(&chars, &root);
        if in_user || in_root {
            let rel = tail_from(path, 5);
            let rel_chars = chars_of(rel.as_str());
            assert(rel@ == path@.skip(5));
            if is_valid_relative(&rel_chars) {
                if in_user {
                    return Ok(File::User(rel));
                } else {
                    return Ok(File::Root(rel));
                }
            }
        }
        Err(Error::MalformedArchivePath(String::from_str(path)))
    }

    /// The address of the real file at `path`, which is absolute and free of
    /// links and of `.` and `..`: in the user scope when it lies under `home`,
    /// else in the root scope. A path that gives no valid address is answered
    /// with `InvalidPath`, which carries the path.
    pub fn from_real_path(path: &str, home: &str) -> (r: Result<File, Error>)
        ensures
            match locate(path@, home@) {
                Some(address) => r matches Ok(file) && file@ == address,
                None => r matches Err(Error::InvalidPath(p)) && p@ == path@,
            },
    {
        proof {
            reveal_strlit("/");
            assert("/"@ =~= seq!['/']);
        }
        if let Some(rel) = strip_base(home, path) {
            let rel_chars = chars_of(rel.as_str());
            if is_valid_relative(&rel_chars) {
                return Ok(File::User(rel));
            }
        }
        if let Some(rel) = strip_base("/", path) {
            let rel_chars = chars_of(rel.as_str());
            if is_valid_relative(&rel_chars) {
                return Ok(File::Root(rel));
            }
        }
        Err(Error::InvalidPath(String::from_str(path)))
    }

    /// The real path that a spelling given by the user stands for, before any
    /// look at the filesystem.
    pub fn resolve(value: &str, cwd: &str, home: &str) -> (r: String)
        ensures
            r@ == resolved(value@, cwd@, home@),
    {
        proof {
            reveal_strlit("~/");
            reveal_strlit("./");
            assert("~/"@ =~= seq!['~', '/']);
            assert("./"@ =~= seq!['.', '/']);
        }
        let chars = chars_of(value);
        let tilde = chars_of("~/");
        let dot = chars_of("./");
        if chars.len() > 0 && chars[0] == '/' {
            String::from_str(value)
        } else if starts_with(&chars, &tilde) {
            let rest = tail_from(value, 2);
            join_paths(home, rest.as_str())
        } else if starts_with(&chars, &dot) {
            let rest = tail_from(value, 2);
            join_paths(cwd, rest.as_str())
        } else {
            join_paths(cwd, value)
        }
    }

    /// The address of a file that the user named. `canonical` is the resolved
    /// path as the filesystem knows it, or `None` when nothing exists there,
    /// which is answered with `PathNotFound` and the resolved path.
    pub fn try_from_resolved(resolved: &str, canonical: Option<&str>, home: &str) -> (r: Result<
        File,
        Error,
    >)
        ensures
            match canonical {
                None => r matches Err(Error::PathNotFound(p)) && p@ == resolved@,
                Some(found) => match locate(found@, home@) {
                    Some(address) => r matches Ok(file) && file@ == address,
                    None => r matches Err(Error::InvalidPath(p)) && p@ == found@,
                },
            },
    {
        match canonical {
            None => Err(Error::PathNotFound(String::from_str(resolved))),
            Some(found) => File::from_real_path(found, home),
        }
    }

    /// Whether this file comes before `other` in the order of addresses.
    pub fn precedes(&self, other: &File) -> (r: bool)
        ensures
            r == self@.precedes(other@),
    {
        match (self, other) {
            (File::User(a), File::User(b)) => text_before(a.as_str(), b.as_str()),
            (File::User(_), File::Root(_)) => true,
            (File::Root(_), File::User(_)) => false,
            (File::Root(a), File::Root(b)) => text_before(a.as_str(), b.as_str()),
        }
    }
}

/// Whether `a` comes before `b` in the lexicographic order by character code.
pub fn text_before(a: &str, b: &str) -> (r: bool)
    ensures
        r == text_precedes(a@, b@),
{
    let x = chars_of(a);
    let y = chars_of(b);
    let mut i: usize = 0;
    while i < x.len() && i < y.len() && x[i] == y[i]
        invariant
            i <= x.len(),
            i <= y.len(),
            text_precedes(x@, y@) == precedes_from(x@, y@, i as int),
        decreases x.len() - i,
    {
        i += 1;
    }
    if i >= y.len() {
        false
    } else if i >= x.len() {
        true
    } else {
        x[i] < y[i]
    }
}

/// No text comes before itself.
pub proof fn lemma_text_order_irreflexive(a: Seq<char>, i: int)
    ensures
        !precedes_from(a, a, i),
    decreases a.len() - i,
{
    if 0 <= i < a.len() {
        lemma_text_order_irreflexive(a, i + 1);
    }
}

/// The order of texts is transitive.
pub proof fn lemma_text_order_transitive(a: Seq<char>, b: Seq<char>, c: Seq<char>, i: int)
    requires
        precedes_from(a, b, i),
        precedes_from(b, c, i),
    ensures
        precedes_from(a, c, i),
    decreases a.len() - i,
{
    if i < a.len() && a[i] == b[i] && b[i] == c[i] {
        lemma_text_order_transitive(a, b, c, i + 1);
    }
}

/// Of two texts that agree before `i` and are not the same, one comes before
/// the other.
pub proof fn lemma_text_order_total(a: Seq<char>, b: Seq<char>, i: int)
    requires
        0 <= i,
        i <= a.len(),
        i <= b.len(),
        a.take(i) == b.take(i),
        !precedes_from(a, b, i),
        !precedes_from(b, a, i),
    ensures
        a == b,
    decreases a.len() - i,
{
    if i < a.len() && i < b.len() {
        assert(a[i] == b[i]);
        assert(a.take(i + 1) =~= a.take(i).push(a[i]));
        assert(b.take(i + 1) =~= b.take(i).push(b[i]));
        lemma_text_order_total(a, b, i + 1);
    } else {
        assert(a.take(i) =~= a);
        assert(b.take(i) =~= b);
    }
}

/// The order of addresses is strict: irreflexive and transitive, and any two
/// different addresses are ordered one way or the other.
pub proof fn lemma_address_order(a: Address, b: Address, c: Address)
    ensures
        !a.precedes(a),
        a.precedes(b) && b.precedes(c) ==> a.precedes(c),
        a != b ==> a.precedes(b) || b.precedes(a),
        !(a.precedes(b) && b.precedes(a)),
{
    lemma_text_order_irreflexive(a.relative(), 0);
    if a.precedes(b) && b.precedes(c) {
        match (a, b, c) {
            (Address::User(x), Address::User(y), Address::User(z)) => {
                lemma_text_order_transitive(x, y, z, 0);
            },
            (Address::Root(x), Address::Root(y), Address::Root(z)) => {
                lemma_text_order_transitive(x, y, z, 0);
            },
            _ => {},
        }
    }
    if a.precedes(b) && b.precedes(a) {
        lemma_text_order_transitive(a.relative(), b.relative(), a.relative(), 0);
    }
    if a != b && !a.precedes(b) && !b.precedes(a) {
        assert(a.relative().take(0) =~= b.relative().take(0));
        lemma_text_order_total(a.relative(), b.relative(), 0);
    }
}

/// Different addresses lie at different places of the archive.
pub proof fn lemma_archive_path_injective(a: Address, b: Address)
    requires
        a.archive_path() == b.archive_path(),
    ensures
        a == b,
{
    let p = a.archive_path();
    let q = b.archive_path();
    assert(p[0] == q[0]);
    assert(p.skip(5) =~= a.relative());
    assert(q.skip(5) =~= b.relative());
}

/// Reading the archive path of a valid address gives the address back.
pub proof fn lemma_parse_inverts_archive_path(a: Address)
    requires
        a.is_valid(),
    ensures
        parse_archive_path(a.archive_path()) == Some(a),
{
    let p = a.archive_path();
    assert(p.skip(5) =~= a.relative());
    match a {
        Address::User(rel) => {
            assert(p.subrange(0, 5) =~= user_scope());
        },
        Address::Root(rel) => {
            assert(p.subrange(0, 5) =~= root_scope());
            assert(p[0] == 'r');
            assert(!user_scope().is_prefix_of(p)) by {
                if user_scope().is_prefix_of(p) {
                    assert(p.subrange(0, 5)[0] == user_scope()[0]);
                }
            }
        },
    }
}

/// What a path reads as is a valid address whose archive path is that path.
pub proof fn lemma_archive_path_inverts_parse(path: Seq<char>)
    requires
        parse_archive_path(path) is Some,
    ensures
        parse_archive_path(path)->Some_0.is_valid(),
        parse_archive_path(path)->Some_0.archive_path() == path,
{
    let a = parse_archive_path(path)->Some_0;
    assert(path.subrange(0, 5) + path.skip(5) =~= path);
}

/// Finding the real path of a valid address of the user scope gives the
/// address back.
pub proof fn lemma_locate_inverts_real_path(rel: Seq<char>, home: Seq<char>, root: Seq<char>)
    requires
        valid_relative(rel),
    ensures
        locate(Address::User(rel).real_path(home, root), home) == Some(Address::User(rel)),
{
    let path = join(home, rel);
    let dir = join(home, Seq::<char>::empty());
    assert(path =~= dir + rel);
    assert(path.subrange(dir.len() as int, path.len() as int) =~= rel);
}

/// Finding the real path of a valid address of the root scope gives the
/// address back, unless that path lies in the user's home.
pub proof fn lemma_locate_inverts_root_path(rel: Seq<char>, home: Seq<char>)
    requires
        valid_relative(rel),
        below(home, seq!['/'] + rel) is None,
    ensures
        locate(Address::Root(rel).real_path(home, seq!['/']), home) == Some(Address::Root(rel)),
{
    let root = seq!['/'];
    let path = join(root, rel);
    assert(root.last() == '/');
    assert(join(root, Seq::<char>::empty()) =~= root);
    assert(path =~= root + rel);
    assert(path.subrange(1, path.len() as int) =~= rel);
}

} // verus!

//! Paths as the cleaning logic reads them: the text that is shown and the
//! components that decide what lies under what.

use crate::text::{is_text_before, text_before};
use vstd::prelude::*;

verus! {

/// One component of a path.
#[derive(Debug, PartialEq, Eq)]
pub enum PathPart {
    /// A drive or share prefix.
    Prefix(String),
    /// The root directory.
    RootDir,
    /// A leading `.`.
    CurDir,
    /// `..`.
    ParentDir,
    /// A file or directory name.
    Normal(String),
}

/// The value of a [`PathPart`].
pub enum PathPartView {
    Prefix(Seq<char>),
    RootDir,
    CurDir,
    ParentDir,
    Normal(Seq<char>),
}

impl View for PathPart {
    type V = PathPartView;

    open spec fn view(&self) -> PathPartView {
        match self {
            PathPart::Prefix(s) => PathPartView::Prefix(s@),
            PathPart::RootDir => PathPartView::RootDir,
            PathPart::CurDir => PathPartView::CurDir,
            PathPart::ParentDir => PathPartView::ParentDir,
            PathPart::Normal(s) => PathPartView::Normal(s@),
        }
    }
}

impl PathPartView {
    /// The kinds of components are ordered as they are declared.
    pub open spec fn rank(self) -> nat {
        match self {
            PathPartView::Prefix(_) => 0,
            PathPartView::RootDir => 1,
            PathPartView::CurDir => 2,
            PathPartView::ParentDir => 3,
            PathPartView::Normal(_) => 4,
        }
    }

    /// The name that the component carries, if it carries one.
    pub open spec fn name(self) -> Seq<char> {
        match self {
            PathPartView::Prefix(s) => s,
            PathPartView::Normal(s) => s,
            _ => Seq::empty(),
        }
    }

    /// `self` comes before `other`: by kind, then by name.
    pub open spec fn before(self, other: Self) -> bool {
        self.rank() < other.rank() || (self.rank() == other.rank() && text_before(
            self.name(),
            other.name(),
        ))
    }
}

impl PathPart {
    fn rank(&self) -> (r: u8)
        ensures
            r == self@.rank(),
    {
        match self {
            PathPart::Prefix(_) => 0,
            PathPart::RootDir => 1,
            PathPart::CurDir => 2,
            PathPart::ParentDir => 3,
            PathPart::Normal(_) => 4,
        }
    }

    fn name(&self) -> (r: &str)
        ensures
            r@ == self@.name(),
    {
        match self {
            PathPart::Prefix(s) => s.as_str(),
            PathPart::Normal(s) => s.as_str(),
            _ => {
                proof {
                    reveal_strlit("");
                }
                assert(""@ =~= Seq::<char>::empty());
                ""
            },
        }
    }

    /// Whether the two components are the same.
    pub fn same(&self, other: &PathPart) -> (r: bool)
        ensures
            r == (self@ == other@),
    {
        match (self, other) {
            (PathPart::Prefix(a), PathPart::Prefix(b)) => *a == *b,
            (PathPart::RootDir, PathPart::RootDir) => true,
            (PathPart::CurDir, PathPart::CurDir) => true,
            (PathPart::ParentDir, PathPart::ParentDir) => true,
            (PathPart::Normal(a), PathPart::Normal(b)) => *a == *b,
            _ => false,
        }
    }

    fn is_before(&self, other: &PathPart) -> (r: bool)
        ensures
            r == self@.before(other@),
    {
        let a: u8 = self.rank();
        let b: u8 = other.rank();
        a < b || (a == b && is_text_before(self.name(), other.name()))
    }
}

impl Clone for PathPart {
    fn clone(&self) -> (r: PathPart)
        ensures
            r == *self,
    {
        match self {
            PathPart::Prefix(s) => PathPart::Prefix(s.clone()),
            PathPart::RootDir => PathPart::RootDir,
            PathPart::CurDir => PathPart::CurDir,
            PathPart::ParentDir => PathPart::ParentDir,
            PathPart::Normal(s) => PathPart::Normal(s.clone()),
        }
    }
}

/// A path: the text that is shown for it, and its components.
///
/// Two paths are the same place when their components are equal, whatever
/// their texts are.
#[derive(Debug, Eq)]
pub struct FilePath {
    /// The text that is shown.
    pub text: String,
    /// The components, outermost first.
    pub parts: Vec<PathPart>,
}

/// The value of a [`FilePath`].
#[verifier::ext_equal]
pub struct FilePathView {
    pub text: Seq<char>,
    pub parts: Seq<PathPartView>,
}

impl View for FilePath {
    type V = FilePathView;

    open spec fn view(&self) -> FilePathView {
        FilePathView { text: self.text@, parts: self.parts@.map_values(|p: PathPart| p@) }
    }
}

/// `a` comes before `b`: by the first component in which they differ, a shorter
/// path before a longer one that continues it.
pub open spec fn parts_before(a: Seq<PathPartView>, b: Seq<PathPartView>) -> bool
    decreases a.len(),
{
    if b.len() == 0 {
        false
    } else if a.len() == 0 {
        true
    } else if a[0] == b[0] {
        parts_before(a.drop_first(), b.drop_first())
    } else {
        a[0].before(b[0])
    }
}

proof fn part_before_irreflexive(a: PathPartView)
    ensures
        !a.before(a),
{
    crate::text::text_before_irreflexive(a.name());
}

proof fn part_before_transitive(a: PathPartView, b: PathPartView, c: PathPartView)
    requires
        a.before(b),
        b.before(c),
    ensures
        a.before(c),
{
    if a.rank() == b.rank() && b.rank() == c.rank() {
        crate::text::text_before_transitive(a.name(), b.name(), c.name());
    }
}

proof fn part_before_total(a: PathPartView, b: PathPartView)
    requires
        a != b,
    ensures
        a.before(b) || b.before(a),
{
    if a.rank() == b.rank() {
        crate::text::text_before_total(a.name(), b.name());
    }
}

/// No path comes before itself.
pub proof fn parts_before_irreflexive(a: Seq<PathPartView>)
    ensures
        !parts_before(a, a),
    decreases a.len(),
{
    if a.len() > 0 {
        parts_before_irreflexive(a.drop_first());
    }
}

/// What comes before a path comes before all that follow it.
pub proof fn parts_before_transitive(
    a: Seq<PathPartView>,
    b: Seq<PathPartView>,
    c: Seq<PathPartView>,
)
    requires
        parts_before(a, b),
        parts_before(b, c),
    ensures
        parts_before(a, c),
    decreases a.len(),
{
    if a.len() > 0 {
        if a[0] == b[0] && b[0] == c[0] {
            parts_before_transitive(a.drop_first(), b.drop_first(), c.drop_first());
        } else if a[0] != b[0] && b[0] != c[0] {
            part_before_transitive(a[0], b[0], c[0]);
            part_before_irreflexive(a[0]);
        }
    }
}

/// Of two different paths one comes before the other.
pub proof fn parts_before_total(a: Seq<PathPartView>, b: Seq<PathPartView>)
    requires
        a != b,
    ensures
        parts_before(a, b) || parts_before(b, a),
    decreases a.len(),
{
    if a.len() > 0 && b.len() > 0 {
        if a[0] == b[0] {
            assert(a =~= seq![a[0]] + a.drop_first());
            assert(b =~= seq![b[0]] + b.drop_first());
            parts_before_total(a.drop_first(), b.drop_first());
        } else {
            part_before_total(a[0], b[0]);
        }
    } else if a.len() == 0 && b.len() == 0 {
        assert(a =~= b);
    }
}

/// Two paths do not both come before each other.
pub proof fn parts_before_asymmetric(a: Seq<PathPartView>, b: Seq<PathPartView>)
    ensures
        !(parts_before(a, b) && parts_before(b, a)),
{
    if parts_before(a, b) && parts_before(b, a) {
        parts_before_transitive(a, b, a);
        parts_before_irreflexive(a);
    }
}

impl FilePathView {
    /// The path has a `..` component.
    pub open spec fn climbs(self) -> bool {
        self.parts.contains(PathPartView::ParentDir)
    }

    /// The path is `base` or lies below it.
    pub open spec fn starts_with(self, base: FilePathView) -> bool {
        base.parts.is_prefix_of(self.parts)
    }

    /// The path lies below `base`, is not `base` itself and never climbs.
    pub open spec fn strictly_under(self, base: FilePathView) -> bool {
        &&& !self.climbs()
        &&& self.parts != base.parts
        &&& self.starts_with(base)
    }

    /// The path `name` in the directory `self`, with `separator` between them
    /// where the text does not end in a separator yet.
    pub open spec fn child(self, separator: char, name: Seq<char>) -> FilePathView {
        FilePathView {
            text: if self.text.len() == 0 || self.text.last() == separator || self.text.last()
                == '/' {
                self.text + name
            } else {
                self.text.push(separator) + name
            },
            parts: self.parts.push(PathPartView::Normal(name)),
        }
    }
}

impl Clone for FilePath {
    fn clone(&self) -> (r: FilePath)
        ensures
            r@ == self@,
    {
        let mut parts: Vec<PathPart> = Vec::new();
        let mut i: usize = 0;
        while i < self.parts.len()
            invariant
                i <= self.parts@.len(),
                parts@ == self.parts@.take(i as int),
            decreases self.parts@.len() - i,
        {
            parts.push(self.parts[i].clone());
            i = i + 1;
            assert(parts@ =~= self.parts@.take(i as int));
        }
        assert(parts@ =~= self.parts@);
        FilePath { text: self.text.clone(), parts }
    }
}

impl FilePath {
    /// A path with the given text and components.
    pub fn new(text: String, parts: Vec<PathPart>) -> (r: FilePath)
        ensures
            r.text == text,
            r.parts == parts,
    {
        FilePath { text, parts }
    }

    /// Whether the path has a `..` component.
    pub fn climbs(&self) -> (r: bool)
        ensures
            r == self@.climbs(),
    {
        let mut i: usize = 0;
        while i < self.parts.len()
            invariant
                i <= self.parts@.len(),
                forall|j: int| 0 <= j < i ==> self@.parts[j] != PathPartView::ParentDir,
            decreases self.parts@.len() - i,
        {
            if self.parts[i].same(&PathPart::ParentDir) {
                assert(self@.parts[i as int] == PathPartView::ParentDir);
                return true;
            }
            i = i + 1;
        }
        false
    }

    /// Whether the path is `base` or lies below it.
    pub fn starts_with(&self, base: &FilePath) -> (r: bool)
        ensures
            r == self@.starts_with(base@),
    {
        if base.parts.len() > self.parts.len() {
            return false;
        }
        let mut i: usize = 0;
        while i < base.parts.len()
            invariant
                i <= base.parts@.len() <= self.parts@.len(),
                forall|j: int| 0 <= j < i ==> self@.parts[j] == base@.parts[j],
            decreases base.parts@.len() - i,
        {
            if !self.parts[i].same(&base.parts[i]) {
                assert(self@.parts[i as int] != base@.parts[i as int]);
                assert(self@.parts.subrange(0, base@.parts.len() as int)[i as int]
                    == self@.parts[i as int]);
                return false;
            }
            i = i + 1;
        }
        assert(self@.parts.subrange(0, base@.parts.len() as int) =~= base@.parts);
        true
    }

    /// Whether the two paths are the same place.
    pub fn same_place(&self, other: &FilePath) -> (r: bool)
        ensures
            r == (self@.parts == other@.parts),
    {
        if self.parts.len() != other.parts.len() {
            return false;
        }
        let r = self.starts_with(other);
        assert(self@.parts.subrange(0, other@.parts.len() as int) =~= self@.parts);
        r
    }

    /// Whether the path comes before `other`.
    pub fn is_before(&self, other: &FilePath) -> (r: bool)
        ensures
            r == parts_before(self@.parts, other@.parts),
    {
        let ghost a = self@.parts;
        let ghost b = other@.parts;
        let mut i: usize = 0;
        assert(a.skip(0) =~= a);
        assert(b.skip(0) =~= b);
        while i < self.parts.len() && i < other.parts.len()
            invariant
                i <= self.parts@.len(),
                i <= other.parts@.len(),
                a == self@.parts,
                b == other@.parts,
                parts_before(a, b) == parts_before(a.skip(i as int), b.skip(i as int)),
            decreases self.parts@.len() - i,
        {
            if !self.parts[i].same(&other.parts[i]) {
                return self.parts[i].is_before(&other.parts[i]);
            }
            assert(a.skip(i as int).drop_first() =~= a.skip(i + 1));
            assert(b.skip(i as int).drop_first() =~= b.skip(i + 1));
            i = i + 1;
        }
        i < other.parts.len()
    }

    /// The path of `name` in the directory `self`, with `separator` between them.
    pub fn child(&self, separator: char, name: &str) -> (r: FilePath)
        ensures
            r@ == self@.child(separator, name@),
    {
        let mut r = self.clone();
        let chars = crate::text::chars_of(self.text.as_str());
        if chars.len() > 0 && chars[chars.len() - 1] != separator && chars[chars.len() - 1] != '/' {
            r.text.push(separator);
        }
        r.text.append(name);
        let part = PathPart::Normal(name.to_owned());
        r.parts.push(part);
        assert(r@.parts =~= self@.parts.push(PathPartView::Normal(name@)));
        r
    }
}

impl PartialEq for FilePath {
    fn eq(&self, other: &FilePath) -> (r: bool) {
        self.same_place(other)
    }
}

impl vstd::std_specs::cmp::PartialEqSpecImpl for FilePath {
    open spec fn obeys_eq_spec() -> bool {
        true
    }

    open spec fn eq_spec(&self, other: &FilePath) -> bool {
        self@.parts == other@.parts
    }
}

/// `std::path::MAIN_SEPARATOR`, the separator of the system that the library
/// was built for: a slash or a backslash.
#[verifier::external_body]
fn main_separator() -> (r: char)
    ensures
        r == '/' || r == '\\',
{
    std::path::MAIN_SEPARATOR
}

/// `r` is the file `name` in `dir`, written with one of the two separators.
pub open spec fn is_file_in(r: FilePathView, dir: FilePathView, name: Seq<char>) -> bool {
    r == dir.child('/', name) || r == dir.child('\\', name)
}

/// The path of the file `name` in `dir`.
pub fn file_in(dir: &FilePath, name: &str) -> (r: FilePath)
    ensures
        is_file_in(r@, dir@, name@),
{
    dir.child(main_separator(), name)
}

/// The path of the file `name` in `dir`, where there is a `dir`.
pub fn file_in_dir(dir: Option<FilePath>, name: &str) -> (r: Option<FilePath>)
    ensures
        r is Some == dir is Some,
        r is Some ==> is_file_in(r->0@, dir->0@, name@),
{
    match dir {
        Some(d) => Some(file_in(&d, name)),
        None => None,
    }
}

// ---- What holds of paths ----

/// Paths are ordered by the first part in which they differ; a path comes before
/// all that lies under it.
pub proof fn paths_are_ordered_by_parts(a: Seq<PathPartView>, b: Seq<PathPartView>, n: int)
    requires
        0 <= n <= a.len(),
        n <= b.len(),
        forall|i: int| 0 <= i < n ==> #[trigger] a[i] == b[i],
    ensures
        n < a.len() && n < b.len() && a[n] != b[n] ==> parts_before(a, b) == a[n].before(b[n]),
        n == a.len() ==> parts_before(a, b) == (a.len() < b.len()),
        n == b.len() ==> !parts_before(a, b),
    decreases n,
{
    if n > 0 {
        assert(a[0] == b[0]);
        let x = a.drop_first();
        let y = b.drop_first();
        assert forall|i: int| 0 <= i < n - 1 implies #[trigger] x[i] == y[i] by {
            assert(x[i] == a[i + 1] && y[i] == b[i + 1]);
        }
        paths_are_ordered_by_parts(x, y, n - 1);
    }
}

/// A prefix comes before the root, the root before the directory itself, that
/// before its parent, and that before names. Names, and prefixes, are ordered as
/// texts.
pub proof fn parts_are_ordered_by_kind(a: Seq<char>, b: Seq<char>)
    ensures
        PathPartView::Prefix(a).before(PathPartView::RootDir),
        PathPartView::RootDir.before(PathPartView::CurDir),
        PathPartView::CurDir.before(PathPartView::ParentDir),
        PathPartView::ParentDir.before(PathPartView::Normal(b)),
        PathPartView::Prefix(a).before(PathPartView::Normal(b)),
        PathPartView::Normal(a).before(PathPartView::Normal(b)) == text_before(a, b),
        PathPartView::Prefix(a).before(PathPartView::Prefix(b)) == text_before(a, b),
{
}

/// A path lies under another if and only if it has all the parts of that one and
/// more after them, and never goes up.
pub proof fn what_lies_under_a_path(path: FilePathView, base: FilePathView)
    ensures
        path.strictly_under(base) <==> path.parts.len() > base.parts.len() && (forall|i: int|
            0 <= i < base.parts.len() ==> #[trigger] path.parts[i] == base.parts[i]) && (forall|
            i: int,
        |
            0 <= i < path.parts.len() ==> #[trigger] path.parts[i] != PathPartView::ParentDir),
{
    if path.strictly_under(base) {
        assert forall|i: int| 0 <= i < path.parts.len() implies #[trigger] path.parts[i]
            != PathPartView::ParentDir by {
            if path.parts[i] == PathPartView::ParentDir {
                assert(path.parts.contains(path.parts[i]));
            }
        }
        if path.parts.len() == base.parts.len() {
            assert(path.parts =~= base.parts);
        }
        assert forall|i: int| 0 <= i < base.parts.len() implies #[trigger] path.parts[i]
            == base.parts[i] by {
            assert(path.parts.take(base.parts.len() as int)[i] == path.parts[i]);
        }
    }
    if path.parts.len() > base.parts.len() && (forall|i: int|
        0 <= i < base.parts.len() ==> #[trigger] path.parts[i] == base.parts[i]) {
        assert(base.parts =~= path.parts.take(base.parts.len() as int));
    }
}

/// A file in a directory lies directly in it, under its name, and is written as
/// the directory, with a separator where there is none, and the name.
pub proof fn files_in_a_directory_lie_in_it(r: FilePathView, dir: FilePathView, name: Seq<char>)
    requires
        is_file_in(r, dir, name),
    ensures
        r.parts.len() == dir.parts.len() + 1,
        r.parts.last() == PathPartView::Normal(name),
        r.parts.drop_last() == dir.parts,
        r.text.take(dir.text.len() as int) == dir.text,
        r.text.skip(r.text.len() - name.len()) == name,
        r.text.len() <= dir.text.len() + 1 + name.len(),
        r.text.len() == dir.text.len() + 1 + name.len() ==> r.text[dir.text.len() as int] == '/'
            || r.text[dir.text.len() as int] == '\\',
        dir.text.len() > 0 && dir.text.last() != '/' && dir.text.last() != '\\' ==> r.text.len()
            == dir.text.len() + 1 + name.len(),
        !dir.climbs() ==> r.strictly_under(dir),
{
    assert(r.parts.drop_last() =~= dir.parts);
    assert(r.text.take(dir.text.len() as int) =~= dir.text);
    assert(r.text.skip(r.text.len() - name.len()) =~= name);
    if !dir.climbs() {
        assert forall|i: int| 0 <= i < r.parts.len() implies #[trigger] r.parts[i]
            != PathPartView::ParentDir by {
            if i < dir.parts.len() {
                assert(dir.parts.contains(dir.parts[i]));
            }
        }
        what_lies_under_a_path(r, dir);
    }
}

} // verus!

//! Paths: those of configuration files, and those of directories on disk.
use vstd::prelude::*;
use vstd::string::StrSliceExecFns;
use vstd::utf8;

use crate::order;
use crate::order::Ranked;

verus! {

/// A path as it was given, and the names that have been joined to it since.
///
/// Both are held as the bytes that `OsStr::as_encoded_bytes` gives. Whether two such paths are the
/// same is for the platform to say, once the names are joined.
#[derive(Debug)]
pub struct FilePath {
    pub base: Vec<u8>,
    pub names: Vec<Vec<u8>>,
}

/// What a [`FilePath`] holds.
#[verifier::ext_equal]
pub struct FilePathView {
    pub base: Seq<u8>,
    pub names: Seq<Seq<u8>>,
}

/// The bytes of each of `names`.
pub open spec fn name_views(names: Seq<Vec<u8>>) -> Seq<Seq<u8>> {
    names.map_values(|name: Vec<u8>| name@)
}

impl View for FilePath {
    type V = FilePathView;

    open spec fn view(&self) -> FilePathView {
        FilePathView { base: self.base@, names: name_views(self.names@) }
    }
}

impl FilePathView {
    /// The path that is written as `text`.
    pub open spec fn text(text: Seq<char>) -> FilePathView {
        FilePathView { base: utf8::encode_utf8(text), names: seq![] }
    }

    /// The path of `name` in this directory.
    pub open spec fn join_bytes(self, name: Seq<u8>) -> FilePathView {
        FilePathView { base: self.base, names: self.names.push(name) }
    }

    /// The path of `name` in this directory.
    pub open spec fn join(self, name: Seq<char>) -> FilePathView {
        self.join_bytes(utf8::encode_utf8(name))
    }
}

/// What each of `paths` holds.
pub open spec fn path_views(paths: Seq<FilePath>) -> Seq<FilePathView> {
    paths.map_values(|path: FilePath| path@)
}

/// What a path that may be missing holds.
pub open spec fn path_view(path: Option<FilePath>) -> Option<FilePathView> {
    match path {
        Some(inner) => Some(inner@),
        None => None,
    }
}

fn copy_bytes(bytes: &Vec<u8>) -> (r: Vec<u8>)
    ensures
        r@ == bytes@,
{
    let r = bytes.clone();
    assert(r@ =~= bytes@);
    r
}

fn copy_names(names: &Vec<Vec<u8>>) -> (r: Vec<Vec<u8>>)
    ensures
        name_views(r@) == name_views(names@),
{
    let mut list: Vec<Vec<u8>> = Vec::new();
    let mut i: usize = 0;
    while i < names.len()
        invariant
            i <= names.len(),
            list.len() == i,
            forall|k: int| 0 <= k < i ==> (#[trigger] list@[k])@ == names@[k]@,
        decreases names.len() - i,
    {
        list.push(copy_bytes(&names[i]));
        i = i + 1;
    }
    assert(name_views(list@) =~= name_views(names@));
    list
}

impl FilePath {
    /// The path with the given bytes.
    pub fn from_bytes(base: Vec<u8>) -> (r: FilePath)
        ensures
            r@ == (FilePathView { base: base@, names: seq![] }),
    {
        let r = FilePath { base, names: Vec::new() };
        assert(r@ =~= (FilePathView { base: base@, names: seq![] }));
        r
    }

    /// The path that is written as `text`.
    pub fn from_text(text: &str) -> (r: FilePath)
        ensures
            r@ == FilePathView::text(text@),
    {
        let base = text.as_bytes_vec();
        FilePath::from_bytes(base)
    }

    /// The path of `name` in this directory.
    pub fn join(&self, name: &str) -> (r: FilePath)
        ensures
            r@ == self@.join(name@),
    {
        self.join_bytes(&name.as_bytes_vec())
    }

    /// The path of `name` in this directory.
    pub fn join_bytes(&self, name: &Vec<u8>) -> (r: FilePath)
        ensures
            r@ == self@.join_bytes(name@),
    {
        let mut names: Vec<Vec<u8>> = copy_names(&self.names);
        let ghost front = names@;
        names.push(copy_bytes(name));
        let r = FilePath { base: copy_bytes(&self.base), names };
        assert(r@.names =~= name_views(front).push(name@));
        r
    }
}

impl Clone for FilePath {
    fn clone(&self) -> (r: FilePath)
        ensures
            r@ == self@,
    {
        FilePath { base: copy_bytes(&self.base), names: copy_names(&self.names) }
    }
}

/// A prefix of a path, as `std::path::Prefix` tells them apart. The letter of a drive is a
/// capital.
#[derive(Debug, PartialEq, Eq)]
pub enum PathPrefix {
    /// As in `\\?\cat_pics`.
    Verbatim(Vec<u8>),
    /// As in `\\?\UNC\server\share`.
    VerbatimUnc(Vec<u8>, Vec<u8>),
    /// As in `\\?\C:`.
    VerbatimDisk(u8),
    /// As in `\\.\NUL`.
    DeviceNs(Vec<u8>),
    /// As in `\\server\share`.
    Unc(Vec<u8>, Vec<u8>),
    /// As in `C:`.
    Disk(u8),
}

/// What a [`PathPrefix`] holds.
pub enum PrefixView {
    Verbatim(Seq<u8>),
    VerbatimUnc(Seq<u8>, Seq<u8>),
    VerbatimDisk(u8),
    DeviceNs(Seq<u8>),
    Unc(Seq<u8>, Seq<u8>),
    Disk(u8),
}

impl View for PathPrefix {
    type V = PrefixView;

    open spec fn view(&self) -> PrefixView {
        match self {
            PathPrefix::Verbatim(name) => PrefixView::Verbatim(name@),
            PathPrefix::VerbatimUnc(server, share) => PrefixView::VerbatimUnc(server@, share@),
            PathPrefix::VerbatimDisk(letter) => PrefixView::VerbatimDisk(*letter),
            PathPrefix::DeviceNs(name) => PrefixView::DeviceNs(name@),
            PathPrefix::Unc(server, share) => PrefixView::Unc(server@, share@),
            PathPrefix::Disk(letter) => PrefixView::Disk(*letter),
        }
    }
}

impl PrefixView {
    /// The place of this kind of prefix among the others.
    pub open spec fn kind(self) -> int {
        match self {
            PrefixView::Verbatim(_) => 0,
            PrefixView::VerbatimUnc(_, _) => 1,
            PrefixView::VerbatimDisk(_) => 2,
            PrefixView::DeviceNs(_) => 3,
            PrefixView::Unc(_, _) => 4,
            PrefixView::Disk(_) => 5,
        }
    }

    /// What tells this prefix first from others of its kind.
    pub open spec fn first(self) -> Seq<u8> {
        match self {
            PrefixView::Verbatim(name) => name,
            PrefixView::VerbatimUnc(server, _) => server,
            PrefixView::VerbatimDisk(letter) => seq![letter],
            PrefixView::DeviceNs(name) => name,
            PrefixView::Unc(server, _) => server,
            PrefixView::Disk(letter) => seq![letter],
        }
    }

    /// What tells this prefix from others of its kind that are first the same.
    pub open spec fn second(self) -> Seq<u8> {
        match self {
            PrefixView::VerbatimUnc(_, share) => share,
            PrefixView::Unc(_, share) => share,
            _ => seq![],
        }
    }
}

/// The order of prefixes: by kind, and then by what they name.
pub open spec fn prefix_le(a: PrefixView, b: PrefixView) -> bool {
    if a.kind() != b.kind() {
        a.kind() < b.kind()
    } else if a.first() != b.first() {
        order::bytes_le(a.first(), b.first())
    } else {
        order::bytes_le(a.second(), b.second())
    }
}

proof fn lemma_prefix_le(a: PrefixView, b: PrefixView, c: PrefixView)
    ensures
        prefix_le(a, a),
        prefix_le(a, b) || prefix_le(b, a),
        prefix_le(a, b) && prefix_le(b, a) ==> a == b,
        prefix_le(a, b) && prefix_le(b, c) ==> prefix_le(a, c),
{
    order::lemma_bytes_le(a.first(), b.first(), c.first());
    order::lemma_bytes_le(b.first(), c.first(), b.first());
    order::lemma_bytes_le(a.second(), b.second(), c.second());
    if a.kind() == b.kind() && a.first() == b.first() {
        if let (PrefixView::Disk(x), PrefixView::Disk(y)) = (a, b) {
            assert(a.first()[0] == x && b.first()[0] == y);
        }
        if let (PrefixView::VerbatimDisk(x), PrefixView::VerbatimDisk(y)) = (a, b) {
            assert(a.first()[0] == x && b.first()[0] == y);
        }
    }
}

/// A part of a path, as `std::path::Component` tells them apart.
#[derive(Debug, PartialEq, Eq)]
pub enum PathPart {
    /// A prefix, such as a drive.
    Prefix(PathPrefix),
    /// The root directory.
    RootDir,
    /// The directory itself, `.`.
    CurDir,
    /// The directory above, `..`.
    ParentDir,
    /// A name.
    Normal(Vec<u8>),
}

/// What a [`PathPart`] holds.
pub enum PartView {
    Prefix(PrefixView),
    RootDir,
    CurDir,
    ParentDir,
    Normal(Seq<u8>),
}

impl View for PathPart {
    type V = PartView;

    open spec fn view(&self) -> PartView {
        match self {
            PathPart::Prefix(prefix) => PartView::Prefix(prefix@),
            PathPart::RootDir => PartView::RootDir,
            PathPart::CurDir => PartView::CurDir,
            PathPart::ParentDir => PartView::ParentDir,
            PathPart::Normal(bytes) => PartView::Normal(bytes@),
        }
    }
}

impl PartView {
    /// The place of this kind of part among the others.
    pub open spec fn kind(self) -> int {
        match self {
            PartView::Prefix(_) => 0,
            PartView::RootDir => 1,
            PartView::CurDir => 2,
            PartView::ParentDir => 3,
            PartView::Normal(_) => 4,
        }
    }
}

/// The order of parts: by kind, and then by what they name.
pub open spec fn part_le(a: PartView, b: PartView) -> bool {
    match (a, b) {
        (PartView::Prefix(x), PartView::Prefix(y)) => prefix_le(x, y),
        (PartView::Normal(x), PartView::Normal(y)) => order::bytes_le(x, y),
        _ => a.kind() <= b.kind(),
    }
}

/// The order of paths: by the first part in which they differ, and a shorter one before any that
/// it starts.
pub open spec fn parts_le(a: Seq<PartView>, b: Seq<PartView>) -> bool
    decreases a.len(),
{
    if a.len() == 0 {
        true
    } else if b.len() == 0 {
        false
    } else if a[0] == b[0] {
        parts_le(a.skip(1), b.skip(1))
    } else {
        part_le(a[0], b[0])
    }
}

proof fn lemma_part_le(a: PartView, b: PartView, c: PartView)
    ensures
        part_le(a, a),
        part_le(a, b) || part_le(b, a),
        part_le(a, b) && part_le(b, a) ==> a == b,
        part_le(a, b) && part_le(b, c) ==> part_le(a, c),
{
    if let PartView::Prefix(x) = a {
        lemma_prefix_le(x, x, x);
        if let PartView::Prefix(y) = b {
            lemma_prefix_le(x, y, x);
            if let PartView::Prefix(z) = c {
                lemma_prefix_le(x, y, z);
            }
        }
    }
    if let PartView::Normal(x) = a {
        order::lemma_bytes_le(x, x, x);
        if let PartView::Normal(y) = b {
            order::lemma_bytes_le(x, y, x);
            if let PartView::Normal(z) = c {
                order::lemma_bytes_le(x, y, z);
            }
        }
    }
}

proof fn lemma_parts_le(a: Seq<PartView>, b: Seq<PartView>, c: Seq<PartView>)
    ensures
        parts_le(a, a),
        parts_le(a, b) || parts_le(b, a),
        parts_le(a, b) && parts_le(b, a) ==> a == b,
        parts_le(a, b) && parts_le(b, c) ==> parts_le(a, c),
    decreases a.len(),
{
    if a.len() > 0 {
        lemma_parts_le(a.skip(1), b.skip(1), c.skip(1));
        if b.len() > 0 {
            lemma_part_le(a[0], b[0], a[0]);
            if a[0] == b[0] && a.skip(1) == b.skip(1) {
                assert(a =~= seq![a[0]] + a.skip(1));
                assert(b =~= seq![b[0]] + b.skip(1));
            }
            if c.len() > 0 {
                lemma_part_le(a[0], b[0], c[0]);
                lemma_part_le(b[0], c[0], b[0]);
            }
        }
    } else if b.len() == 0 {
        assert(a =~= b);
    }
}

/// What is done to a path.
#[derive(Debug)]
pub enum PathStep {
    /// A name is joined to it.
    Join(Vec<u8>),
    /// The path above is taken.
    Parent,
}

/// What a [`PathStep`] holds.
pub enum StepView {
    Join(Seq<u8>),
    Parent,
}

impl View for PathStep {
    type V = StepView;

    open spec fn view(&self) -> StepView {
        match self {
            PathStep::Join(name) => StepView::Join(name@),
            PathStep::Parent => StepView::Parent,
        }
    }
}

/// A path on disk: how it was given and what has been done to it since, which say how it is
/// written, and its parts, as `std::path::Path::components` finds them. Two of them are equal if
/// their parts are.
#[derive(Debug)]
pub struct DirPath {
    pub base: Vec<u8>,
    pub steps: Vec<PathStep>,
    pub parts: Vec<PathPart>,
}

/// What a [`DirPath`] holds.
#[verifier::ext_equal]
pub struct DirView {
    pub base: Seq<u8>,
    pub steps: Seq<StepView>,
    pub parts: Seq<PartView>,
}

/// What each of `parts` holds.
pub open spec fn part_views(parts: Seq<PathPart>) -> Seq<PartView> {
    parts.map_values(|part: PathPart| part@)
}

/// What each of `steps` holds.
pub open spec fn step_views(steps: Seq<PathStep>) -> Seq<StepView> {
    steps.map_values(|step: PathStep| step@)
}

impl View for DirPath {
    type V = DirView;

    open spec fn view(&self) -> DirView {
        DirView {
            base: self.base@,
            steps: step_views(self.steps@),
            parts: part_views(self.parts@),
        }
    }
}

/// What each of `dirs` holds.
pub open spec fn dir_views(dirs: Seq<DirPath>) -> Seq<DirView> {
    dirs.map_values(|dir: DirPath| dir@)
}

impl PathPrefix {
    fn copy(&self) -> (r: PathPrefix)
        ensures
            r@ == self@,
    {
        match self {
            PathPrefix::Verbatim(name) => PathPrefix::Verbatim(copy_bytes(name)),
            PathPrefix::VerbatimUnc(server, share) => PathPrefix::VerbatimUnc(
                copy_bytes(server),
                copy_bytes(share),
            ),
            PathPrefix::VerbatimDisk(letter) => PathPrefix::VerbatimDisk(*letter),
            PathPrefix::DeviceNs(name) => PathPrefix::DeviceNs(copy_bytes(name)),
            PathPrefix::Unc(server, share) => PathPrefix::Unc(copy_bytes(server), copy_bytes(share)),
            PathPrefix::Disk(letter) => PathPrefix::Disk(*letter),
        }
    }

    fn kind(&self) -> (r: u8)
        ensures
            r == self@.kind(),
    {
        match self {
            PathPrefix::Verbatim(_) => 0,
            PathPrefix::VerbatimUnc(_, _) => 1,
            PathPrefix::VerbatimDisk(_) => 2,
            PathPrefix::DeviceNs(_) => 3,
            PathPrefix::Unc(_, _) => 4,
            PathPrefix::Disk(_) => 5,
        }
    }

    fn first(&self) -> (r: Vec<u8>)
        ensures
            r@ == self@.first(),
    {
        match self {
            PathPrefix::Verbatim(name) => copy_bytes(name),
            PathPrefix::VerbatimUnc(server, _) => copy_bytes(server),
            PathPrefix::VerbatimDisk(letter) => vec![*letter],
            PathPrefix::DeviceNs(name) => copy_bytes(name),
            PathPrefix::Unc(server, _) => copy_bytes(server),
            PathPrefix::Disk(letter) => vec![*letter],
        }
    }

    fn second(&self) -> (r: Vec<u8>)
        ensures
            r@ == self@.second(),
    {
        match self {
            PathPrefix::VerbatimUnc(_, share) => copy_bytes(share),
            PathPrefix::Unc(_, share) => copy_bytes(share),
            _ => Vec::new(),
        }
    }

    fn in_order(&self, other: &PathPrefix) -> (r: bool)
        ensures
            r == prefix_le(self@, other@),
    {
        if self.kind() != other.kind() {
            return self.kind() < other.kind();
        }
        let a: Vec<u8> = self.first();
        let b: Vec<u8> = other.first();
        proof {
            order::lemma_bytes_le(a@, b@, a@);
        }
        let forward: bool = order::bytes_in_order(a.as_slice(), b.as_slice());
        let backward: bool = order::bytes_in_order(b.as_slice(), a.as_slice());
        if forward && backward {
            order::bytes_in_order(self.second().as_slice(), other.second().as_slice())
        } else {
            forward
        }
    }
}

impl PathPart {
    fn copy(&self) -> (r: PathPart)
        ensures
            r@ == self@,
    {
        match self {
            PathPart::Prefix(prefix) => PathPart::Prefix(prefix.copy()),
            PathPart::RootDir => PathPart::RootDir,
            PathPart::CurDir => PathPart::CurDir,
            PathPart::ParentDir => PathPart::ParentDir,
            PathPart::Normal(bytes) => PathPart::Normal(copy_bytes(bytes)),
        }
    }

    fn kind(&self) -> (r: u8)
        ensures
            r == self@.kind(),
    {
        match self {
            PathPart::Prefix(_) => 0,
            PathPart::RootDir => 1,
            PathPart::CurDir => 2,
            PathPart::ParentDir => 3,
            PathPart::Normal(_) => 4,
        }
    }

    fn in_order(&self, other: &PathPart) -> (r: bool)
        ensures
            r == part_le(self@, other@),
    {
        match (self, other) {
            (PathPart::Prefix(a), PathPart::Prefix(b)) => a.in_order(b),
            (PathPart::Normal(a), PathPart::Normal(b)) => order::bytes_in_order(
                a.as_slice(),
                b.as_slice(),
            ),
            _ => self.kind() <= other.kind(),
        }
    }

    fn same_as(&self, other: &PathPart) -> (r: bool)
        ensures
            r == (self@ == other@),
    {
        proof {
            lemma_part_le(self@, other@, self@);
        }
        self.in_order(other) && other.in_order(self)
    }
}

impl PathStep {
    fn copy(&self) -> (r: PathStep)
        ensures
            r@ == self@,
    {
        match self {
            PathStep::Join(name) => PathStep::Join(copy_bytes(name)),
            PathStep::Parent => PathStep::Parent,
        }
    }
}

impl DirView {
    /// The path above: the path without its last part. A root, a prefix and the empty path have
    /// none.
    pub open spec fn parent(self) -> Option<DirView> {
        if self.parts.len() == 0 || self.parts.last() is RootDir || self.parts.last() is Prefix {
            None
        } else {
            Some(
                DirView {
                    base: self.base,
                    steps: self.steps.push(StepView::Parent),
                    parts: self.parts.drop_last(),
                },
            )
        }
    }

    /// The path of `name` in this directory.
    pub open spec fn join(self, name: Seq<char>) -> DirView {
        DirView {
            base: self.base,
            steps: self.steps.push(StepView::Join(utf8::encode_utf8(name))),
            parts: self.parts.push(PartView::Normal(utf8::encode_utf8(name))),
        }
    }

    /// The name that the path ends with. It has none if its last part is not a name.
    pub open spec fn file_name(self) -> Option<Seq<u8>> {
        if self.parts.len() == 0 {
            None
        } else {
            match self.parts.last() {
                PartView::Normal(name) => Some(name),
                _ => None,
            }
        }
    }

    /// The path itself and those above it, nearest first, but no more than `count`.
    pub open spec fn ancestors(self, count: nat) -> Seq<DirView>
        decreases count,
    {
        if count == 0 {
            seq![]
        } else {
            match self.parent() {
                Some(above) => seq![self] + above.ancestors((count - 1) as nat),
                None => seq![self],
            }
        }
    }
}

impl DirPath {
    /// Whether the two are the same path.
    pub fn same_as(&self, other: &DirPath) -> (r: bool)
        ensures
            r == (self@.parts == other@.parts),
    {
        if self.parts.len() != other.parts.len() {
            assert(self@.parts.len() != other@.parts.len());
            return false;
        }
        let mut i: usize = 0;
        while i < self.parts.len()
            invariant
                self.parts.len() == other.parts.len(),
                i <= self.parts.len(),
                forall|k: int| 0 <= k < i ==> #[trigger] self@.parts[k] == other@.parts[k],
            decreases self.parts.len() - i,
        {
            if !self.parts[i].same_as(&other.parts[i]) {
                assert(self@.parts[i as int] != other@.parts[i as int]);
                return false;
            }
            assert(self@.parts[i as int] == other@.parts[i as int]);
            i = i + 1;
        }
        assert(self@.parts =~= other@.parts);
        true
    }

    /// Goes one up, if there is a path above.
    fn take_parent(&mut self) -> (r: bool)
        ensures
            match old(self)@.parent() {
                Some(above) => r && final(self)@ == above,
                None => !r && final(self)@ == old(self)@,
            },
    {
        if self.parts.len() == 0 {
            return false;
        }
        let last: usize = self.parts.len() - 1;
        assert(self@.parts.last() == self.parts@[last as int]@);
        match &self.parts[last] {
            PathPart::RootDir => false,
            PathPart::Prefix(_) => false,
            _ => {
                let ghost parts = self.parts@;
                let ghost steps = self.steps@;
                self.parts.truncate(last);
                self.steps.push(PathStep::Parent);
                assert(self@.parts =~= part_views(parts).drop_last());
                assert(self@.steps =~= step_views(steps).push(StepView::Parent));
                true
            },
        }
    }

    /// The path of `name` in this directory, where `name` is one name.
    pub fn join(&self, name: &str) -> (r: DirPath)
        ensures
            r@ == self@.join(name@),
    {
        let mut r = self.clone();
        let ghost parts = r.parts@;
        let ghost steps = r.steps@;
        r.parts.push(PathPart::Normal(name.as_bytes_vec()));
        r.steps.push(PathStep::Join(name.as_bytes_vec()));
        assert(r@.parts =~= part_views(parts).push(PartView::Normal(utf8::encode_utf8(name@))));
        assert(r@.steps =~= step_views(steps).push(StepView::Join(utf8::encode_utf8(name@))));
        r
    }

    /// Whether the path ends with the given name.
    pub fn has_file_name(&self, name: &str) -> (r: bool)
        ensures
            r == (self@.file_name() == Some(utf8::encode_utf8(name@))),
    {
        if self.parts.len() == 0 {
            return false;
        }
        let last: usize = self.parts.len() - 1;
        assert(self@.parts.last() == self.parts@[last as int]@);
        self.parts[last].same_as(&PathPart::Normal(name.as_bytes_vec()))
    }

    /// The path itself and those above it, nearest first, but no more than `count`.
    pub fn ancestors(&self, count: usize) -> (r: Vec<DirPath>)
        ensures
            dir_views(r@) == self@.ancestors(count as nat),
    {
        let mut list: Vec<DirPath> = Vec::new();
        let mut current = self.clone();
        let mut left: usize = count;
        assert(dir_views(list@) =~= Seq::<DirView>::empty());
        assert(Seq::<DirView>::empty() + self@.ancestors(count as nat) =~= self@.ancestors(
            count as nat,
        ));
        while left > 0
            invariant
                dir_views(list@) + current@.ancestors(left as nat) == self@.ancestors(count as nat),
            decreases left,
        {
            let ghost before = list@;
            let ghost at = current@;
            let item = current.clone();
            list.push(item);
            assert(dir_views(list@) =~= dir_views(before).push(at));
            if !current.take_parent() {
                assert(dir_views(before) + seq![at] =~= dir_views(list@));
                return list;
            }
            assert(dir_views(before) + (seq![at] + current@.ancestors((left - 1) as nat))
                =~= dir_views(list@) + current@.ancestors((left - 1) as nat));
            left = left - 1;
        }
        assert(dir_views(list@) + Seq::<DirView>::empty() =~= dir_views(list@));
        list
    }
}

impl Clone for DirPath {
    fn clone(&self) -> (r: DirPath)
        ensures
            r@ == self@,
    {
        let mut parts: Vec<PathPart> = Vec::new();
        let mut i: usize = 0;
        while i < self.parts.len()
            invariant
                i <= self.parts.len(),
                parts.len() == i,
                forall|k: int| 0 <= k < i ==> (#[trigger] parts@[k])@ == self.parts@[k]@,
            decreases self.parts.len() - i,
        {
            parts.push(self.parts[i].copy());
            i = i + 1;
        }
        let mut steps: Vec<PathStep> = Vec::new();
        let mut j: usize = 0;
        while j < self.steps.len()
            invariant
                j <= self.steps.len(),
                steps.len() == j,
                forall|k: int| 0 <= k < j ==> (#[trigger] steps@[k])@ == self.steps@[k]@,
            decreases self.steps.len() - j,
        {
            steps.push(self.steps[j].copy());
            j = j + 1;
        }
        let r = DirPath { base: copy_bytes(&self.base), steps, parts };
        assert(r@ =~= self@);
        r
    }
}

impl vstd::std_specs::cmp::PartialEqSpecImpl for DirPath {
    open spec fn obeys_eq_spec() -> bool {
        true
    }

    open spec fn eq_spec(&self, other: &DirPath) -> bool {
        self@.parts == other@.parts
    }
}

impl PartialEq for DirPath {
    fn eq(&self, other: &DirPath) -> (r: bool) {
        self.same_as(other)
    }
}

impl Eq for DirPath {

}

/// A copy of a list of paths.
pub(crate) fn copy_dirs(dirs: &Vec<DirPath>) -> (r: Vec<DirPath>)
    ensures
        dir_views(r@) == dir_views(dirs@),
{
    let mut list: Vec<DirPath> = Vec::new();
    let mut i: usize = 0;
    while i < dirs.len()
        invariant
            i <= dirs.len(),
            list.len() == i,
            forall|k: int| 0 <= k < i ==> (#[trigger] list@[k])@ == dirs@[k]@,
        decreases dirs.len() - i,
    {
        list.push(dirs[i].clone());
        i = i + 1;
    }
    assert(dir_views(list@) =~= dir_views(dirs@));
    list
}

impl Ranked for DirPath {
    type Key = Seq<PartView>;

    open spec fn key(self) -> Seq<PartView> {
        self@.parts
    }

    open spec fn key_le(a: Seq<PartView>, b: Seq<PartView>) -> bool {
        parts_le(a, b)
    }

    proof fn key_order() {
        assert forall|a: Seq<PartView>, b: Seq<PartView>, c: Seq<PartView>| true implies {
            &&& #[trigger] parts_le(a, b) && parts_le(b, a) ==> a == b
            &&& parts_le(a, b) && #[trigger] parts_le(b, c) ==> parts_le(a, c)
        } by {
            lemma_parts_le(a, b, c);
        }
        assert forall|a: Seq<PartView>, b: Seq<PartView>| #[trigger] parts_le(a, b) || parts_le(
            b,
            a,
        ) by {
            lemma_parts_le(a, b, a);
        }
        assert forall|a: Seq<PartView>| #[trigger] parts_le(a, a) by {
            lemma_parts_le(a, a, a);
        }
    }

    fn comes_before(&self, other: &DirPath) -> (r: bool) {
        let mut i: usize = 0;
        assert(self@.parts.skip(0) =~= self@.parts);
        assert(other@.parts.skip(0) =~= other@.parts);
        while i < self.parts.len() && i < other.parts.len()
            invariant
                i <= self.parts.len(),
                i <= other.parts.len(),
                parts_le(self@.parts.skip(i as int), other@.parts.skip(i as int)) == parts_le(self@.parts, other@.parts),
            decreases self.parts.len() - i,
        {
            let ghost a = self@.parts.skip(i as int);
            let ghost b = other@.parts.skip(i as int);
            assert(a[0] == self.parts@[i as int]@);
            assert(b[0] == other.parts@[i as int]@);
            if !self.parts[i].same_as(&other.parts[i]) {
                return self.parts[i].in_order(&other.parts[i]);
            }
            assert(a.skip(1) =~= self@.parts.skip(i + 1));
            assert(b.skip(1) =~= other@.parts.skip(i + 1));
            i = i + 1;
        }
        i == self.parts.len()
    }
}

} // verus!

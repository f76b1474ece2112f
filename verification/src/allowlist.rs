//! The directories that may contribute items to the prompt.
use vstd::prelude::*;
use vstd::relations;
use vstd::seq_lib;
use vstd::string::StringExecFns;

use crate::ondemand;
use crate::order;
use crate::order::Ranked;
use crate::path;
use crate::path::{DirPath, DirView, FilePath, FilePathView, PartView};
use crate::sources;
use crate::sources::{ConfigSources, SourcesView};

verus! {

/// A set of directories. One that is put in again stays as it was written first.
pub struct Allowlist {
    dirs: Vec<DirPath>,
}

/// Directories by their parts, with one more. One that is there already stays as it is.
pub open spec fn with_dir(
    dirs: Map<Seq<PartView>, DirView>,
    dir: DirView,
) -> Map<Seq<PartView>, DirView> {
    if dirs.dom().contains(dir.parts) {
        dirs
    } else {
        dirs.insert(dir.parts, dir)
    }
}

/// The directories of a list by their parts.
pub open spec fn dirs_in(list: Seq<DirView>) -> Map<Seq<PartView>, DirView>
    decreases list.len(),
{
    if list.len() == 0 {
        Map::empty()
    } else {
        with_dir(dirs_in(list.drop_last()), list.last())
    }
}

/// What tells the directories of a list apart.
pub open spec fn parts_in(list: Seq<DirView>) -> Seq<Seq<PartView>> {
    list.map_values(|dir: DirView| dir.parts)
}

/// Whether `list` holds each of `dirs` once, in ascending order.
pub open spec fn listed_in_order(list: Seq<DirView>, dirs: Map<Seq<PartView>, DirView>) -> bool {
    &&& parts_in(list).no_duplicates()
    &&& dirs_in(list) == dirs
    &&& relations::sorted_by(
        parts_in(list),
        |a: Seq<PartView>, b: Seq<PartView>| path::parts_le(a, b),
    )
}

impl View for Allowlist {
    type V = Map<Seq<PartView>, DirView>;

    closed spec fn view(&self) -> Map<Seq<PartView>, DirView> {
        dirs_in(path::dir_views(self.dirs@))
    }
}

proof fn lemma_dirs_in(list: Seq<DirView>)
    ensures
        forall|parts: Seq<PartView>|
            #[trigger] dirs_in(list).dom().contains(parts) <==> parts_in(list).contains(parts),
        parts_in(list).no_duplicates() ==> forall|i: int|
            0 <= i < list.len() ==> dirs_in(list)[(#[trigger] list[i]).parts] == list[i],
    decreases list.len(),
{
    if list.len() > 0 {
        let front = list.drop_last();
        let last = list[list.len() - 1];
        lemma_dirs_in(front);
        let keys = parts_in(list);
        assert(parts_in(front) =~= keys.drop_last());
        assert forall|parts: Seq<PartView>| #[trigger]
            dirs_in(list).dom().contains(parts) <==> keys.contains(parts) by {
            assert(dirs_in(front).dom().contains(parts) <==> parts_in(front).contains(parts));
            assert(dirs_in(front).dom().contains(last.parts) ==> dirs_in(list) == dirs_in(front));
            if parts_in(front).contains(parts) {
                let k = choose|k: int| 0 <= k < front.len() && parts_in(front)[k] == parts;
                assert(keys[k] == parts);
            }
            if keys.contains(parts) {
                let k = choose|k: int| 0 <= k < keys.len() && keys[k] == parts;
                if k < front.len() {
                    assert(parts_in(front)[k] == parts);
                }
            }
            assert(keys[front.len() as int] == last.parts);
        }
        if keys.no_duplicates() {
            assert(!parts_in(front).contains(last.parts)) by {
                if parts_in(front).contains(last.parts) {
                    let k = choose|k: int| 0 <= k < front.len() && parts_in(front)[k] == last.parts;
                    assert(keys[k] == keys[front.len() as int]);
                }
            }
            assert(parts_in(front).no_duplicates());
            assert(!dirs_in(front).dom().contains(last.parts));
            assert forall|i: int| 0 <= i < list.len() implies dirs_in(list)[(
            #[trigger] list[i]).parts] == list[i] by {
                if i < front.len() {
                    assert(front[i] == list[i]);
                    assert(keys[i] != keys[front.len() as int]);
                }
            }
        }
    }
}

impl Allowlist {
    /// No directory stands in the list twice.
    #[verifier::type_invariant]
    spec fn well_formed(self) -> bool {
        parts_in(path::dir_views(self.dirs@)).no_duplicates()
    }

    /// The set of nothing.
    pub fn new() -> (r: Allowlist)
        ensures
            r@ == Map::<Seq<PartView>, DirView>::empty(),
    {
        Allowlist { dirs: Vec::new() }
    }

    fn position(&self, dir: &DirPath) -> (r: Option<usize>)
        ensures
            match r {
                Some(i) => i < self.dirs.len() && self.dirs@[i as int]@.parts == dir@.parts,
                None => !self@.dom().contains(dir@.parts),
            },
    {
        let mut i: usize = 0;
        while i < self.dirs.len()
            invariant
                i <= self.dirs.len(),
                forall|k: int| 0 <= k < i ==> (#[trigger] self.dirs@[k])@.parts != dir@.parts,
            decreases self.dirs.len() - i,
        {
            if self.dirs[i].same_as(dir) {
                return Some(i);
            }
            i = i + 1;
        }
        proof {
            let list = path::dir_views(self.dirs@);
            lemma_dirs_in(list);
            if parts_in(list).contains(dir@.parts) {
                let k = choose|k: int| 0 <= k < list.len() && parts_in(list)[k] == dir@.parts;
                assert(self.dirs@[k]@.parts == dir@.parts);
            }
        }
        None
    }

    /// Whether a directory is in the set.
    pub fn contains(&self, dir: &DirPath) -> (r: bool)
        ensures
            r == self@.dom().contains(dir@.parts),
    {
        match self.position(dir) {
            Some(i) => {
                proof {
                    let list = path::dir_views(self.dirs@);
                    lemma_dirs_in(list);
                    assert(parts_in(list)[i as int] == dir@.parts);
                }
                true
            },
            None => false,
        }
    }

    /// The set with one more directory.
    pub fn insert(self, dir: DirPath) -> (r: Allowlist)
        ensures
            r@ == with_dir(self@, dir@),
    {
        if self.contains(&dir) {
            return self;
        }
        proof {
            use_type_invariant(&self);
        }
        let mut dirs = self.dirs;
        let ghost before = path::dir_views(dirs@);
        dirs.push(dir);
        proof {
            let after = path::dir_views(dirs@);
            assert(after =~= before.push(dir@));
            assert(after.drop_last() =~= before);
            lemma_dirs_in(before);
            let keys = parts_in(after);
            assert forall|i: int, j: int| 0 <= i < j < keys.len() implies keys[i] != keys[j] by {
                assert(keys[i] == parts_in(before)[i]);
                if j < before.len() {
                    assert(keys[j] == parts_in(before)[j]);
                } else {
                    assert(parts_in(before).contains(keys[i]));
                }
            }
        }
        Allowlist { dirs }
    }

    /// The set without a directory, and whether it was there.
    pub fn remove(self, dir: &DirPath) -> (r: (Allowlist, bool))
        ensures
            r.0@ == self@.remove(dir@.parts),
            r.1 == self@.dom().contains(dir@.parts),
    {
        proof {
            use_type_invariant(&self);
        }
        match self.position(dir) {
            None => {
                assert(self@.remove(dir@.parts) =~= self@);
                (self, false)
            },
            Some(at) => {
                let mut dirs = self.dirs;
                let ghost before = path::dir_views(dirs@);
                dirs.remove(at);
                proof {
                    let after = path::dir_views(dirs@);
                    assert(after =~= before.remove(at as int));
                    lemma_without(before, at as int);
                }
                (Allowlist { dirs }, true)
            },
        }
    }

    /// The directories of the set in ascending order.
    pub fn into_paths(self) -> (r: Vec<DirPath>)
        ensures
            listed_in_order(path::dir_views(r@), self@),
    {
        proof {
            use_type_invariant(&self);
        }
        let dirs = self.dirs;
        let ghost given = path::dir_views(dirs@);
        let sorted: Vec<DirPath> = order::sort(dirs);
        proof {
            let list = path::dir_views(sorted@);
            let keys = parts_in(list);
            assert(order::keys(sorted@) =~= keys);
            assert(order::keys(dirs@) =~= parts_in(given));
            order::law_ascending::<DirPath>(parts_in(given));
            lemma_same_content(parts_in(given), keys);
            let le = |a: Seq<PartView>, b: Seq<PartView>| DirPath::key_le(a, b);
            assert forall|i: int, j: int| 0 <= i < j < keys.len() implies path::parts_le(
                #[trigger] keys[i],
                #[trigger] keys[j],
            ) by {
                assert(le(keys[i], keys[j]));
            }
            assert forall|i: int| 0 <= i < list.len() implies given.contains(#[trigger] list[i]) by {
                dirs@.to_multiset_ensures();
                sorted@.to_multiset_ensures();
                assert(sorted@.contains(sorted@[i]));
                assert(sorted@.to_multiset().count(sorted@[i]) > 0);
                assert(dirs@.contains(sorted@[i]));
                let k = choose|k: int| 0 <= k < dirs@.len() && dirs@[k] == sorted@[i];
                assert(given[k] == list[i]);
            }
            lemma_same_dirs(given, list);
        }
        sorted
    }
}

proof fn lemma_without(list: Seq<DirView>, at: int)
    requires
        parts_in(list).no_duplicates(),
        0 <= at < list.len(),
    ensures
        parts_in(list.remove(at)).no_duplicates(),
        dirs_in(list.remove(at)) == dirs_in(list).remove(list[at].parts),
        dirs_in(list).dom().contains(list[at].parts),
{
    let rest = list.remove(at);
    let keys = parts_in(list);
    let left = parts_in(rest);
    assert(left =~= keys.remove(at));
    lemma_dirs_in(list);
    lemma_dirs_in(rest);
    assert(keys[at] == list[at].parts);
    assert forall|i: int| 0 <= i < rest.len() implies #[trigger] rest[i] == list[if i < at {
        i
    } else {
        i + 1
    }] by {}
    assert forall|parts: Seq<PartView>| #[trigger]
        dirs_in(rest).dom().contains(parts) <==> dirs_in(list).dom().contains(parts) && parts
            != list[at].parts by {
        if left.contains(parts) {
            let k = choose|k: int| 0 <= k < left.len() && left[k] == parts;
            let j = if k < at {
                k
            } else {
                k + 1
            };
            assert(keys[j] == parts);
            assert(keys[j] != keys[at]);
        }
        if keys.contains(parts) && parts != list[at].parts {
            let k = choose|k: int| 0 <= k < keys.len() && keys[k] == parts;
            let j = if k < at {
                k
            } else {
                k - 1
            };
            assert(left[j] == parts);
        }
    }
    assert forall|parts: Seq<PartView>| #[trigger]
        dirs_in(rest).dom().contains(parts) implies dirs_in(rest)[parts]
        == dirs_in(list)[parts] by {
        assert(left.contains(parts));
        let k = choose|k: int| 0 <= k < left.len() && left[k] == parts;
        let j = if k < at {
            k
        } else {
            k + 1
        };
        assert(rest[k] == list[j]);
        assert(dirs_in(rest)[rest[k].parts] == rest[k]);
        assert(dirs_in(list)[list[j].parts] == list[j]);
    }
    assert(dirs_in(rest) =~= dirs_in(list).remove(list[at].parts));
}

proof fn lemma_same_content(a: Seq<Seq<PartView>>, b: Seq<Seq<PartView>>)
    requires
        a.no_duplicates(),
        a.to_multiset() == b.to_multiset(),
    ensures
        b.no_duplicates(),
        forall|parts: Seq<PartView>| a.contains(parts) <==> #[trigger] b.contains(parts),
{
    a.to_multiset_ensures();
    b.to_multiset_ensures();
    a.lemma_multiset_has_no_duplicates();
    assert(b.no_duplicates()) by {
        b.lemma_multiset_has_no_duplicates_conv();
    }
    assert forall|parts: Seq<PartView>| a.contains(parts) <==> #[trigger] b.contains(parts) by {
        assert(a.contains(parts) <==> a.to_multiset().count(parts) > 0);
        assert(b.contains(parts) <==> b.to_multiset().count(parts) > 0);
    }
}

proof fn lemma_same_dirs(a: Seq<DirView>, b: Seq<DirView>)
    requires
        parts_in(a).no_duplicates(),
        parts_in(b).no_duplicates(),
        forall|parts: Seq<PartView>|
            parts_in(a).contains(parts) <==> #[trigger] parts_in(b).contains(parts),
        forall|i: int| 0 <= i < b.len() ==> a.contains(#[trigger] b[i]),
    ensures
        dirs_in(a) == dirs_in(b),
{
    lemma_dirs_in(a);
    lemma_dirs_in(b);
    assert forall|parts: Seq<PartView>| #[trigger]
        dirs_in(a).dom().contains(parts) <==> dirs_in(b).dom().contains(parts) by {
        assert(parts_in(a).contains(parts) <==> parts_in(b).contains(parts));
    }
    assert forall|parts: Seq<PartView>| #[trigger]
        dirs_in(a).dom().contains(parts) implies dirs_in(a)[parts] == dirs_in(b)[parts] by {
        assert(parts_in(b).contains(parts));
        let k = choose|k: int| 0 <= k < b.len() && parts_in(b)[k] == parts;
        assert(a.contains(b[k]));
        let j = choose|j: int| 0 <= j < a.len() && a[j] == b[k];
        assert(dirs_in(b)[b[k].parts] == b[k]);
        assert(dirs_in(a)[a[j].parts] == a[j]);
    }
    assert(dirs_in(a) =~= dirs_in(b));
}

/// There is only one list of the directories of a set in ascending order.
pub proof fn law_one_list_in_order(
    a: Seq<DirView>,
    b: Seq<DirView>,
    dirs: Map<Seq<PartView>, DirView>,
)
    requires
        listed_in_order(a, dirs),
        listed_in_order(b, dirs),
    ensures
        a == b,
{
    let le = |x: Seq<PartView>, y: Seq<PartView>| path::parts_le(x, y);
    let p = parts_in(a);
    let q = parts_in(b);
    DirPath::key_order();
    lemma_dirs_in(a);
    lemma_dirs_in(b);
    p.lemma_multiset_has_no_duplicates();
    q.lemma_multiset_has_no_duplicates();
    p.to_multiset_ensures();
    q.to_multiset_ensures();
    assert forall|d: Seq<PartView>| p.to_multiset().count(d) == q.to_multiset().count(d) by {
        assert(p.contains(d) <==> dirs.dom().contains(d));
        assert(q.contains(d) <==> dirs.dom().contains(d));
        assert(p.to_multiset().contains(d) <==> p.to_multiset().count(d) > 0);
        assert(q.to_multiset().contains(d) <==> q.to_multiset().count(d) > 0);
    }
    assert(p.to_multiset() =~= q.to_multiset());
    assert(relations::total_ordering(le)) by {
        let key_le = |x: Seq<PartView>, y: Seq<PartView>| DirPath::key_le(x, y);
        assert(le =~= key_le);
    }
    seq_lib::lemma_sorted_unique(p, q, le);
    assert forall|i: int| 0 <= i < a.len() implies a[i] == b[i] by {
        assert(p[i] == q[i]);
        assert(dirs[a[i].parts] == a[i]);
        assert(dirs[b[i].parts] == b[i]);
    }
    assert(p.len() == a.len() && q.len() == b.len());
    assert(a =~= b);
}

/// Where the allowlist is kept.
pub open spec fn kept_at(sources: SourcesView) -> Option<FilePathView> {
    sources::joined_path(sources.user_config_home, "allowlist.toml"@)
}

/// Where the allowlist is kept.
pub fn allowlist_path(config_sources: &ConfigSources) -> (r: Option<FilePath>)
    ensures
        path::path_view(r) == kept_at(config_sources@),
{
    match &config_sources.user_config_home {
        Some(dir) => Some(dir.join("allowlist.toml")),
        None => None,
    }
}

/// The directories that a list names, each as it is written there first.
pub open spec fn loaded(paths: Option<Vec<DirPath>>) -> Map<Seq<PartView>, DirView> {
    match paths {
        Some(list) => dirs_in(path::dir_views(list@)),
        None => Map::empty(),
    }
}

/// Load the allowlist.
///
/// `paths` is the list in the file at [`allowlist_path`], if there is such a file, it could be
/// read and it is valid.
pub fn load_allowlist(paths: Option<Vec<DirPath>>) -> (r: Allowlist)
    ensures
        r@ == loaded(paths),
{
    let mut allowlist = Allowlist::new();
    if let Some(list) = paths {
        let ghost given = list@;
        let ghost views = path::dir_views(given);
        assert(views.take(0) =~= Seq::<DirView>::empty());
        for dir in it: list.into_iter()
            invariant
                it.seq() == given,
                views == path::dir_views(given),
                allowlist@ == dirs_in(views.take(it.index() as int)),
        {
            proof {
                let k = it.index() as int;
                assert(views.take(k + 1).drop_last() =~= views.take(k));
                assert(views.take(k + 1).last() == dir@);
            }
            allowlist = allowlist.insert(dir);
        }
        assert(views.take(views.len() as int) =~= views);
    }
    allowlist
}

/// What is written when an allowlist is saved: where, and the paths in their order.
#[derive(Debug)]
pub struct AllowlistFile {
    pub path: FilePath,
    pub paths: Vec<DirPath>,
}

/// Whether `file` is what is written for an allowlist.
pub open spec fn is_saved(
    file: AllowlistFile,
    sources: SourcesView,
    dirs: Map<Seq<PartView>, DirView>,
) -> bool {
    &&& Some(file.path@) == kept_at(sources)
    &&& listed_in_order(path::dir_views(file.paths@), dirs)
}

/// Save the allowlist, which needs a user config directory to be kept in.
pub fn save_allowlist(config_sources: &ConfigSources, allowlist: Allowlist) -> (r: Result<
    AllowlistFile,
    String,
>)
    ensures
        match r {
            Ok(file) => is_saved(file, config_sources@, allowlist@),
            Err(error) => config_sources@.user_config_home is None && error@
                == "Unable to determine STARSHIP_CONFIG_HOME"@,
        },
{
    match allowlist_path(config_sources) {
        Some(path) => Ok(AllowlistFile { path, paths: allowlist.into_paths() }),
        None => Err("Unable to determine STARSHIP_CONFIG_HOME".to_owned()),
    }
}

/// What putting a directory on the allowlist gives: the directory and the allowlist that is
/// written.
pub open spec fn after_adding(
    ondemand_dir: Result<DirView, Seq<char>>,
    sources: SourcesView,
    dirs: Map<Seq<PartView>, DirView>,
) -> Result<(DirView, Map<Seq<PartView>, DirView>), Seq<char>> {
    match (ondemand_dir, kept_at(sources)) {
        (Err(error), _) => Err(error),
        (Ok(_), None) => Err("Unable to determine STARSHIP_CONFIG_HOME"@),
        (Ok(dir), Some(_)) => Ok((dir, with_dir(dirs, dir))),
    }
}

/// What taking a directory off the allowlist gives: the directory and the allowlist that is
/// written.
pub open spec fn after_removing(
    ondemand_dir: Result<DirView, Seq<char>>,
    shown: Seq<char>,
    sources: SourcesView,
    dirs: Map<Seq<PartView>, DirView>,
) -> Result<(DirView, Map<Seq<PartView>, DirView>), Seq<char>> {
    match (ondemand_dir, kept_at(sources)) {
        (Err(error), _) => Err(error),
        (Ok(dir), _) if !dirs.dom().contains(dir.parts) => Err(shown + " is not allowlisted"@),
        (Ok(_), None) => Err("Unable to determine STARSHIP_CONFIG_HOME"@),
        (Ok(dir), Some(_)) => Ok((dir, dirs.remove(dir.parts))),
    }
}

/// Whether `r` is the directory of `outcome` with what is written for its allowlist, or its error.
pub open spec fn is_outcome(
    r: Result<(DirPath, AllowlistFile), String>,
    sources: SourcesView,
    outcome: Result<(DirView, Map<Seq<PartView>, DirView>), Seq<char>>,
) -> bool {
    match (r, outcome) {
        (Ok((dir, file)), Ok((expected, dirs))) => dir@ == expected && is_saved(
            file,
            sources,
            dirs,
        ),
        (Err(error), Err(expected)) => error@ == expected,
        _ => false,
    }
}

/// Put a `.starship` directory on the allowlist. Gives the directory and what is written.
///
/// `ondemand_dir` is the directory that the path resolved to, or why it did not.
pub fn add_allowlist_path(
    config_sources: &ConfigSources,
    ondemand_dir: Result<DirPath, String>,
    allowlist: Allowlist,
) -> (r: Result<(DirPath, AllowlistFile), String>)
    ensures
        is_outcome(
            r,
            config_sources@,
            after_adding(ondemand::dir_result(ondemand_dir), config_sources@, allowlist@),
        ),
{
    match ondemand_dir {
        Err(error) => Err(error),
        Ok(dir) => {
            let added = dir.clone();
            match save_allowlist(config_sources, allowlist.insert(dir)) {
                Ok(file) => Ok((added, file)),
                Err(error) => Err(error),
            }
        },
    }
}

/// Take a `.starship` directory off the allowlist. Gives the directory and what is written.
///
/// `ondemand_dir` is the directory that the path resolved to, or why it did not, and `shown` is
/// how the directory is shown to the user.
pub fn remove_allowlist_path(
    config_sources: &ConfigSources,
    ondemand_dir: Result<DirPath, String>,
    shown: &str,
    allowlist: Allowlist,
) -> (r: Result<(DirPath, AllowlistFile), String>)
    ensures
        is_outcome(
            r,
            config_sources@,
            after_removing(
                ondemand::dir_result(ondemand_dir),
                shown@,
                config_sources@,
                allowlist@,
            ),
        ),
{
    match ondemand_dir {
        Err(error) => Err(error),
        Ok(dir) => {
            let (rest, found) = allowlist.remove(&dir);
            if !found {
                let mut error: String = shown.to_owned();
                error.append(" is not allowlisted");
                return Err(error);
            }
            match save_allowlist(config_sources, rest) {
                Ok(file) => Ok((dir, file)),
                Err(error) => Err(error),
            }
        },
    }
}

/// List the directories on the allowlist in ascending order.
pub fn list_allowlist_paths(allowlist: Allowlist) -> (r: Vec<DirPath>)
    ensures
        listed_in_order(path::dir_views(r@), allowlist@),
{
    allowlist.into_paths()
}

/// Putting a directory on the allowlist puts it there as it is written, unless it is there already,
/// and changes no other.
pub proof fn law_with_dir(
    dirs: Map<Seq<PartView>, DirView>,
    dir: DirView,
    parts: Seq<PartView>,
)
    ensures
        with_dir(dirs, dir).dom().contains(dir.parts),
        !dirs.dom().contains(dir.parts) ==> with_dir(dirs, dir)[dir.parts] == dir,
        dirs.dom().contains(dir.parts) ==> with_dir(dirs, dir)[dir.parts] == dirs[dir.parts],
        parts != dir.parts ==> (with_dir(dirs, dir).dom().contains(parts) <==> dirs.dom().contains(
            parts,
        )),
        parts != dir.parts && dirs.dom().contains(parts) ==> with_dir(dirs, dir)[parts]
            == dirs[parts],
{
}

/// A directory is on the allowlist that was loaded exactly if the list names it, and it is written
/// as the list names it first.
pub proof fn law_loaded(list: Seq<DirView>, dir: DirView, i: int)
    ensures
        dirs_in(list).dom().contains(dir.parts) <==> exists|k: int|
            0 <= k < list.len() && (#[trigger] list[k]).parts == dir.parts,
        0 <= i < list.len() && (forall|k: int|
            0 <= k < i ==> (#[trigger] list[k]).parts != list[i].parts) ==> dirs_in(
            list,
        )[list[i].parts] == list[i],
    decreases list.len(),
{
    if list.len() > 0 {
        let front = list.drop_last();
        let last = list[list.len() - 1];
        law_loaded(front, dir, i);
        assert forall|k: int| 0 <= k < front.len() implies #[trigger] front[k] == list[k] by {}
        if dirs_in(front).dom().contains(dir.parts) {
            let k = choose|k: int| 0 <= k < front.len() && (#[trigger] front[k]).parts == dir.parts;
            assert(list[k].parts == dir.parts);
        }
        if exists|k: int| 0 <= k < list.len() && (#[trigger] list[k]).parts == dir.parts {
            let k = choose|k: int| 0 <= k < list.len() && (#[trigger] list[k]).parts == dir.parts;
            if k < front.len() {
                assert(front[k].parts == dir.parts);
            }
        }
        if 0 <= i < list.len() && (forall|k: int|
            0 <= k < i ==> (#[trigger] list[k]).parts != list[i].parts) {
            if i < front.len() {
                law_loaded(front, list[i], i);
                assert(front[i] == list[i]);
                assert forall|k: int| 0 <= k < i implies (#[trigger] front[k]).parts
                    != front[i].parts by {
                    assert(list[k].parts != list[i].parts);
                }
                assert(dirs_in(front).dom().contains(list[i].parts));
            } else {
                law_loaded(front, last, i);
                assert(!dirs_in(front).dom().contains(last.parts));
            }
        }
    }
}

/// There is nothing on the allowlist where no list could be read, and what a list names otherwise.
pub proof fn law_list_in_a_file(list: Vec<DirPath>, dir: DirView)
    ensures
        loaded(None) == Map::<Seq<PartView>, DirView>::empty(),
        loaded(Some(list)).dom().contains(dir.parts) <==> exists|k: int|
            0 <= k < list@.len() && (#[trigger] list@[k])@.parts == dir.parts,
{
    let views = path::dir_views(list@);
    law_loaded(views, dir, 0);
    if loaded(Some(list)).dom().contains(dir.parts) {
        let k = choose|k: int| 0 <= k < views.len() && (#[trigger] views[k]).parts == dir.parts;
        assert(list@[k]@.parts == dir.parts);
    }
    if exists|k: int| 0 <= k < list@.len() && (#[trigger] list@[k])@.parts == dir.parts {
        let k = choose|k: int| 0 <= k < list@.len() && (#[trigger] list@[k])@.parts == dir.parts;
        assert(views[k].parts == dir.parts);
    }
}

/// The allowlist is kept in `allowlist.toml` in the user config directory, if there is one.
pub proof fn law_where_the_allowlist_is_kept(sources: SourcesView, dir: FilePathView)
    ensures
        sources.user_config_home == Some(dir) ==> kept_at(sources) == Some(
            dir.join("allowlist.toml"@),
        ),
        sources.user_config_home is None ==> kept_at(sources) is None,
{
}

/// A list holds the directories of a set in order exactly if each of them stands in it as it is
/// written, nothing else does, and each stands before those that are greater.
pub proof fn law_listed_in_order(list: Seq<DirView>, dirs: Map<Seq<PartView>, DirView>)
    ensures
        listed_in_order(list, dirs) <==> {
            &&& forall|parts: Seq<PartView>|
                dirs.dom().contains(parts) ==> exists|i: int|
                    0 <= i < list.len() && (#[trigger] list[i]).parts == parts
            &&& forall|i: int|
                0 <= i < list.len() ==> dirs.dom().contains((#[trigger] list[i]).parts)
                    && dirs[list[i].parts] == list[i]
            &&& forall|i: int, j: int|
                0 <= i < j < list.len() ==> (#[trigger] list[i]).parts != (#[trigger] list[j]).parts
                    && path::parts_le(list[i].parts, list[j].parts)
        },
{
    lemma_dirs_in(list);
    let keys = parts_in(list);
    let le = |a: Seq<PartView>, b: Seq<PartView>| path::parts_le(a, b);
    let named = dirs_in(list);
    if listed_in_order(list, dirs) {
        assert forall|parts: Seq<PartView>| dirs.dom().contains(parts) implies exists|i: int|
            0 <= i < list.len() && (#[trigger] list[i]).parts == parts by {
            assert(named.dom().contains(parts));
            let i = choose|i: int| 0 <= i < keys.len() && keys[i] == parts;
            assert(list[i].parts == parts);
        }
        assert forall|i: int| 0 <= i < list.len() implies dirs.dom().contains(
            (#[trigger] list[i]).parts,
        ) && dirs[list[i].parts] == list[i] by {
            assert(keys[i] == list[i].parts);
            assert(named.dom().contains(list[i].parts));
        }
        assert forall|i: int, j: int| 0 <= i < j < list.len() implies (#[trigger] list[i]).parts
            != (#[trigger] list[j]).parts && path::parts_le(list[i].parts, list[j].parts) by {
            assert(keys[i] != keys[j]);
            assert(le(keys[i], keys[j]));
        }
    }
    if {
        &&& forall|parts: Seq<PartView>|
            dirs.dom().contains(parts) ==> exists|i: int|
                0 <= i < list.len() && (#[trigger] list[i]).parts == parts
        &&& forall|i: int|
            0 <= i < list.len() ==> dirs.dom().contains((#[trigger] list[i]).parts)
                && dirs[list[i].parts] == list[i]
        &&& forall|i: int, j: int|
            0 <= i < j < list.len() ==> (#[trigger] list[i]).parts != (#[trigger] list[j]).parts
                && path::parts_le(list[i].parts, list[j].parts)
    } {
        assert forall|i: int, j: int| 0 <= i < j < keys.len() implies keys[i] != keys[j] && le(
            #[trigger] keys[i],
            #[trigger] keys[j],
        ) by {
            assert(list[i].parts != list[j].parts);
        }
        assert(keys.no_duplicates());
        assert forall|parts: Seq<PartView>| #[trigger]
            named.dom().contains(parts) <==> dirs.dom().contains(parts) by {
            if named.dom().contains(parts) {
                let i = choose|i: int| 0 <= i < keys.len() && keys[i] == parts;
                assert(dirs.dom().contains(list[i].parts));
            }
            if dirs.dom().contains(parts) {
                let i = choose|i: int| 0 <= i < list.len() && (#[trigger] list[i]).parts == parts;
                assert(keys[i] == parts);
            }
        }
        assert forall|parts: Seq<PartView>| #[trigger] named.dom().contains(parts) implies named[parts]
            == dirs[parts] by {
            let i = choose|i: int| 0 <= i < keys.len() && keys[i] == parts;
            assert(named[list[i].parts] == list[i]);
        }
        assert(named =~= dirs);
    }
}

/// Putting a directory on the allowlist fails only if there is no such directory, for the reason
/// that there is none, or else if there is no user config directory. Otherwise that directory is
/// on the allowlist then, with all that were.
pub proof fn law_adding(
    ondemand_dir: Result<DirView, Seq<char>>,
    sources: SourcesView,
    dirs: Map<Seq<PartView>, DirView>,
    other: Seq<PartView>,
)
    ensures
        after_adding(ondemand_dir, sources, dirs) is Ok <==> ondemand_dir is Ok
            && sources.user_config_home is Some,
        ondemand_dir matches Err(reason) ==> after_adding(ondemand_dir, sources, dirs) == Err::<
            (DirView, Map<Seq<PartView>, DirView>),
            Seq<char>,
        >(reason),
        ondemand_dir is Ok && sources.user_config_home is None ==> after_adding(
            ondemand_dir,
            sources,
            dirs,
        ) == Err::<(DirView, Map<Seq<PartView>, DirView>), Seq<char>>(
            "Unable to determine STARSHIP_CONFIG_HOME"@,
        ),
        after_adding(ondemand_dir, sources, dirs) matches Ok((dir, after)) ==> {
            &&& ondemand_dir == Ok::<DirView, Seq<char>>(dir)
            &&& after.dom().contains(other) <==> other == dir.parts || dirs.dom().contains(other)
            &&& dirs.dom().contains(other) ==> after[other] == dirs[other]
            &&& !dirs.dom().contains(dir.parts) ==> after[dir.parts] == dir
        },
{
}

/// Taking a directory off the allowlist fails if there is no such directory, for the reason that
/// there is none, or else if it is not on the allowlist, or else if there is no user config
/// directory. Otherwise that directory is not on the allowlist then, and all others are that were.
pub proof fn law_removing(
    ondemand_dir: Result<DirView, Seq<char>>,
    shown: Seq<char>,
    sources: SourcesView,
    dirs: Map<Seq<PartView>, DirView>,
    other: Seq<PartView>,
)
    ensures
        after_removing(ondemand_dir, shown, sources, dirs) is Ok <==> {
            &&& ondemand_dir matches Ok(dir)
            &&& dirs.dom().contains(dir.parts)
            &&& sources.user_config_home is Some
        },
        ondemand_dir matches Err(reason) ==> after_removing(ondemand_dir, shown, sources, dirs)
            == Err::<(DirView, Map<Seq<PartView>, DirView>), Seq<char>>(reason),
        ondemand_dir matches Ok(dir) ==> (!dirs.dom().contains(dir.parts) ==> after_removing(
            ondemand_dir,
            shown,
            sources,
            dirs,
        ) == Err::<(DirView, Map<Seq<PartView>, DirView>), Seq<char>>(
            shown + " is not allowlisted"@,
        )),
        ondemand_dir matches Ok(dir) ==> (dirs.dom().contains(dir.parts)
            && sources.user_config_home is None ==> after_removing(
            ondemand_dir,
            shown,
            sources,
            dirs,
        ) == Err::<(DirView, Map<Seq<PartView>, DirView>), Seq<char>>(
            "Unable to determine STARSHIP_CONFIG_HOME"@,
        )),
        after_removing(ondemand_dir, shown, sources, dirs) matches Ok((dir, after)) ==> {
            &&& ondemand_dir == Ok::<DirView, Seq<char>>(dir)
            &&& after.dom().contains(other) <==> other != dir.parts && dirs.dom().contains(other)
            &&& after.dom().contains(other) ==> after[other] == dirs[other]
        },
{
}

/// Loading what was saved gives the same allowlist.
pub proof fn law_load_what_was_saved(
    file: AllowlistFile,
    sources: SourcesView,
    dirs: Map<Seq<PartView>, DirView>,
)
    requires
        is_saved(file, sources, dirs),
    ensures
        loaded(Some(file.paths)) == dirs,
{
}

/// Taking a directory off the allowlist undoes putting it on, if it was not there before.
pub proof fn law_remove_undoes_add(
    sources: SourcesView,
    dirs: Map<Seq<PartView>, DirView>,
    dir: DirView,
    added: AllowlistFile,
    removed: AllowlistFile,
)
    requires
        !dirs.dom().contains(dir.parts),
        is_saved(added, sources, with_dir(dirs, dir)),
        is_saved(removed, sources, loaded(Some(added.paths)).remove(dir.parts)),
    ensures
        loaded(Some(added.paths)).dom().contains(dir.parts),
        loaded(Some(removed.paths)) == dirs,
{
    assert(with_dir(dirs, dir).remove(dir.parts) =~= dirs);
}

/// Putting a directory on the allowlist undoes taking it off, if it was there before. It is then
/// written as it was put on last.
pub proof fn law_add_undoes_remove(
    sources: SourcesView,
    dirs: Map<Seq<PartView>, DirView>,
    dir: DirView,
    removed: AllowlistFile,
    added: AllowlistFile,
)
    requires
        dirs.dom().contains(dir.parts),
        is_saved(removed, sources, dirs.remove(dir.parts)),
        is_saved(added, sources, with_dir(loaded(Some(removed.paths)), dir)),
    ensures
        !loaded(Some(removed.paths)).dom().contains(dir.parts),
        loaded(Some(added.paths)) == dirs.insert(dir.parts, dir),
{
    assert(with_dir(dirs.remove(dir.parts), dir) =~= dirs.insert(dir.parts, dir));
}

/// Putting a directory on the allowlist that is on it changes nothing.
pub proof fn law_add_twice(dirs: Map<Seq<PartView>, DirView>, dir: DirView, again: DirView)
    requires
        dir.parts == again.parts,
    ensures
        with_dir(with_dir(dirs, dir), again) == with_dir(dirs, dir),
{
}

} // verus!

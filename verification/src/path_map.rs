use crate::key::Key;
use vstd::prelude::*;
use vstd::std_specs::cmp::PartialEqSpecImpl;
use vstd::utf8::encode_utf8;

verus! {

/// One file known to the engine: its path and the key of the source that
/// holds its content.
#[derive(Debug)]
pub struct PathEntry {
    pub path: String,
    pub source: Key,
}

/// The sources of a set of files, by path. No path occurs twice.
#[derive(Debug)]
pub struct PathMap {
    pub entries: Vec<PathEntry>,
}

/// Whether one of `entries` is for `path`.
pub open spec fn holds(entries: Seq<PathEntry>, path: Seq<char>) -> bool {
    exists|i: int| 0 <= i < entries.len() && (#[trigger] entries[i]).path@ == path
}

/// The place of an entry for `path` among `entries`.
pub open spec fn place_of(entries: Seq<PathEntry>, path: Seq<char>) -> int {
    choose|i: int| 0 <= i < entries.len() && (#[trigger] entries[i]).path@ == path
}

/// No two of `entries` are for the same path.
pub open spec fn distinct(entries: Seq<PathEntry>) -> bool {
    forall|i: int, j: int|
        0 <= i < j < entries.len() ==> (#[trigger] entries[i]).path@ != (#[trigger] entries[j]).path@
}

/// The map from paths to source keys that `entries` stand for.
pub open spec fn as_map(entries: Seq<PathEntry>) -> Map<Seq<char>, Key> {
    Map::new(
        |path: Seq<char>| holds(entries, path),
        |path: Seq<char>| entries[place_of(entries, path)].source,
    )
}

/// The file at `path` lies under the folder `folder`: written out as bytes,
/// `folder` is the beginning of `path`.
pub open spec fn under(path: Seq<char>, folder: Seq<char>) -> bool {
    let whole = encode_utf8(path);
    let start = encode_utf8(folder);
    start.len() <= whole.len() && whole.subrange(0, start.len() as int) == start
}

/// The first place among `entries` of an entry for `path`.
pub open spec fn first_place(entries: Seq<PathEntry>, path: Seq<char>) -> int {
    choose|i: int|
        0 <= i < entries.len() && (#[trigger] entries[i]).path@ == path && forall|j: int|
            0 <= j < i ==> (#[trigger] entries[j]).path@ != path
}

/// The first place of a path is the place before which no entry is for it.
pub proof fn lemma_first_place(entries: Seq<PathEntry>, path: Seq<char>, i: int)
    requires
        0 <= i < entries.len(),
        entries[i].path@ == path,
        forall|j: int| 0 <= j < i ==> (#[trigger] entries[j]).path@ != path,
    ensures
        first_place(entries, path) == i,
{
    let f = first_place(entries, path);
    assert(0 <= f < entries.len() && entries[f].path@ == path && forall|j: int|
        0 <= j < f ==> (#[trigger] entries[j]).path@ != path);
    if f < i {
        assert(entries[f].path@ != path);
    }
    if i < f {
        assert(entries[i].path@ != path);
    }
}

/// The map `map` without the files under `folder`.
pub open spec fn without_folder(map: Map<Seq<char>, Key>, folder: Seq<char>) -> Map<
    Seq<char>,
    Key,
> {
    Map::new(
        |path: Seq<char>| map.contains_key(path) && !under(path, folder),
        |path: Seq<char>| map[path],
    )
}

/// Whether `b` holds, at the first place for its path, each entry of `a`,
/// and no more entries than `a`.
pub open spec fn same_files(a: Seq<PathEntry>, b: Seq<PathEntry>) -> bool {
    &&& a.len() == b.len()
    &&& forall|i: int|
        0 <= i < a.len() ==> holds(b, (#[trigger] a[i]).path@) && b[first_place(
            b,
            a[i].path@,
        )].source == a[i].source
}

/// Among distinct entries the place of an entry's path is the entry's own.
pub proof fn lemma_place(entries: Seq<PathEntry>, i: int)
    requires
        distinct(entries),
        0 <= i < entries.len(),
    ensures
        holds(entries, entries[i].path@),
        place_of(entries, entries[i].path@) == i,
{
    let j = place_of(entries, entries[i].path@);
    assert(0 <= j < entries.len() && entries[j].path@ == entries[i].path@);
}

/// Adding an entry for a path that is not held adds the path to the map.
pub proof fn lemma_push(entries: Seq<PathEntry>, entry: PathEntry)
    requires
        distinct(entries),
        !holds(entries, entry.path@),
    ensures
        distinct(entries.push(entry)),
        as_map(entries.push(entry)) == as_map(entries).insert(entry.path@, entry.source),
{
    let more = entries.push(entry);
    assert forall|i: int, j: int| 0 <= i < j < more.len() implies (#[trigger] more[i]).path@ != (
    #[trigger] more[j]).path@ by {
        if j == entries.len() {
            assert(entries[i].path@ != entry.path@);
        } else {
            assert(entries[i].path@ != entries[j].path@);
        }
    }
    let target = as_map(entries).insert(entry.path@, entry.source);
    assert forall|path: Seq<char>| #[trigger]
        as_map(more).dom().contains(path) == target.dom().contains(path) by {
        if holds(entries, path) {
            let i = place_of(entries, path);
            assert(more[i] == entries[i]);
        }
        if path == entry.path@ {
            assert(more[entries.len() as int] == entry);
        }
        if holds(more, path) {
            let i = place_of(more, path);
            if i < entries.len() {
                assert(entries[i] == more[i]);
            }
        }
    }
    assert forall|path: Seq<char>| #[trigger] target.dom().contains(path) implies as_map(more)[path]
        == target[path] by {
        if path == entry.path@ {
            assert(more[entries.len() as int] == entry);
            lemma_place(more, entries.len() as int);
        } else {
            let i = place_of(entries, path);
            assert(more[i] == entries[i]);
            lemma_place(more, i);
        }
    }
    assert(as_map(more) =~= as_map(entries).insert(entry.path@, entry.source));
}

/// Taking an entry out takes its path out of the map.
pub proof fn lemma_remove(entries: Seq<PathEntry>, i: int)
    requires
        distinct(entries),
        0 <= i < entries.len(),
    ensures
        distinct(entries.remove(i)),
        !holds(entries.remove(i), entries[i].path@),
        as_map(entries.remove(i)) == as_map(entries).remove(entries[i].path@),
{
    let fewer = entries.remove(i);
    let gone = entries[i].path@;
    assert forall|a: int| 0 <= a < fewer.len() implies (#[trigger] fewer[a]) == entries[if a < i {
        a
    } else {
        a + 1
    }] by {}
    assert forall|a: int, b: int| 0 <= a < b < fewer.len() implies (#[trigger] fewer[a]).path@ != (
    #[trigger] fewer[b]).path@ by {
        let a0 = if a < i {
            a
        } else {
            a + 1
        };
        let b0 = if b < i {
            b
        } else {
            b + 1
        };
        assert(entries[a0].path@ != entries[b0].path@);
    }
    if holds(fewer, gone) {
        let a = place_of(fewer, gone);
        let a0 = if a < i {
            a
        } else {
            a + 1
        };
        assert(fewer[a] == entries[a0]);
        if a0 < i {
            assert(entries[a0].path@ != entries[i].path@);
        } else {
            assert(entries[i].path@ != entries[a0].path@);
        }
    }
    let target = as_map(entries).remove(gone);
    assert forall|path: Seq<char>| #[trigger]
        as_map(fewer).dom().contains(path) == target.dom().contains(path) by {
        if holds(fewer, path) {
            let a = place_of(fewer, path);
            let a0 = if a < i {
                a
            } else {
                a + 1
            };
            assert(fewer[a] == entries[a0]);
        }
        if holds(entries, path) && path != gone {
            let b = place_of(entries, path);
            let a = if b < i {
                b
            } else {
                b - 1
            };
            assert(fewer[a] == entries[b]);
        }
    }
    assert forall|path: Seq<char>| #[trigger] target.dom().contains(path) implies as_map(
        fewer,
    )[path] == target[path] by {
        let b = place_of(entries, path);
        let a = if b < i {
            b
        } else {
            b - 1
        };
        assert(fewer[a] == entries[b]);
        lemma_place(fewer, a);
    }
    assert(as_map(fewer) =~= as_map(entries).remove(gone));
}

impl View for PathMap {
    type V = Map<Seq<char>, Key>;

    open spec fn view(&self) -> Map<Seq<char>, Key> {
        as_map(self.entries@)
    }
}

impl PathMap {
    /// The invariant: no path occurs twice.
    pub open spec fn wf(&self) -> bool {
        distinct(self.entries@)
    }

    /// A map without files.
    pub fn new() -> (map: Self)
        ensures
            map.wf(),
            map@ == Map::<Seq<char>, Key>::empty(),
    {
        let map = PathMap { entries: Vec::new() };
        assert(map@ =~= Map::<Seq<char>, Key>::empty());
        map
    }

    /// Whether the invariant holds: no path occurs twice.
    pub fn is_wf(&self) -> (b: bool)
        ensures
            b == self.wf(),
    {
        let n = self.entries.len();
        let mut i: usize = 0;
        while i < n
            invariant
                i <= n,
                n == self.entries@.len(),
                forall|a: int, b: int|
                    0 <= a < i && a < b < n ==> (#[trigger] self.entries@[a]).path@ != (
                    #[trigger] self.entries@[b]).path@,
            decreases n - i,
        {
            let mut j: usize = i + 1;
            while j < n
                invariant
                    i < j <= n,
                    n == self.entries@.len(),
                    forall|b: int|
                        i < b < j ==> self.entries@[i as int].path@ != (
                        #[trigger] self.entries@[b]).path@,
                decreases n - j,
            {
                if self.entries[i].path == self.entries[j].path {
                    assert(self.entries@[i as int].path@ == self.entries@[j as int].path@);
                    return false;
                }
                j = j + 1;
            }
            i = i + 1;
        }
        true
    }

    /// How many files the map holds.
    pub fn len(&self) -> (n: usize)
        ensures
            n == self.entries@.len(),
    {
        self.entries.len()
    }

    /// The place of the entry for `path`, if there is one.
    pub fn find(&self, path: &String) -> (place: Option<usize>)
        ensures
            match place {
                Some(i) => i < self.entries@.len() && self.entries@[i as int].path@ == path@
                    && first_place(self.entries@, path@) == i,
                None => !holds(self.entries@, path@),
            },
    {
        let n = self.entries.len();
        let mut i: usize = 0;
        while i < n
            invariant
                i <= n,
                n == self.entries@.len(),
                forall|j: int| 0 <= j < i ==> (#[trigger] self.entries@[j]).path@ != path@,
            decreases n - i,
        {
            if self.entries[i].path == *path {
                proof {
                    lemma_first_place(self.entries@, path@, i as int);
                }
                return Some(i);
            }
            i = i + 1;
        }
        None
    }

    /// The key of the source for the file at `path`, if the map holds it.
    pub fn get(&self, path: &String) -> (source: Option<Key>)
        requires
            self.wf(),
        ensures
            source == (if self@.contains_key(path@) {
                Some(self@[path@])
            } else {
                None
            }),
    {
        match self.find(path) {
            Some(i) => {
                proof {
                    lemma_place(self.entries@, i as int);
                }
                Some(self.entries[i].source)
            },
            None => None,
        }
    }

    /// Takes the file at `path` out of the map and hands back the key that it
    /// had there.
    pub fn remove(&mut self, path: &String) -> (source: Option<Key>)
        requires
            old(self).wf(),
        ensures
            final(self).wf(),
            final(self)@ == old(self)@.remove(path@),
            !holds(final(self).entries@, path@),
            source == (if old(self)@.contains_key(path@) {
                Some(old(self)@[path@])
            } else {
                None
            }),
    {
        match self.find(path) {
            Some(i) => {
                proof {
                    lemma_place(self.entries@, i as int);
                    lemma_remove(self.entries@, i as int);
                }
                let entry = self.entries.remove(i);
                Some(entry.source)
            },
            None => {
                assert(self@ =~= self@.remove(path@));
                None
            },
        }
    }

    /// Puts the file at `path` into the map with the key `source`, in place of
    /// the key that it had there, if any.
    pub fn insert(&mut self, path: String, source: Key)
        requires
            old(self).wf(),
        ensures
            final(self).wf(),
            final(self)@ == old(self)@.insert(path@, source),
    {
        self.remove(&path);
        proof {
            lemma_push(self.entries@, PathEntry { path, source });
            assert(old(self)@.remove(path@).insert(path@, source) =~= old(self)@.insert(
                path@,
                source,
            ));
        }
        self.entries.push(PathEntry { path, source });
    }

    /// The map without the files under `folder`.
    pub fn remove_under(&mut self, folder: &String)
        requires
            old(self).wf(),
        ensures
            final(self).wf(),
            final(self)@ == without_folder(old(self)@, folder@),
    {
        let mut i: usize = 0;
        while i < self.entries.len()
            invariant
                i <= self.entries@.len(),
                distinct(self.entries@),
                forall|j: int| 0 <= j < i ==> !under((#[trigger] self.entries@[j]).path@, folder@),
                forall|path: Seq<char>| #[trigger]
                    self@.contains_key(path) ==> old(self)@.contains_key(path) && old(self)@[path]
                        == self@[path],
                forall|path: Seq<char>|
                    old(self)@.contains_key(path) && !under(path, folder@)
                        ==> #[trigger] self@.contains_key(path),
            decreases self.entries@.len() - i,
        {
            if lies_under(&self.entries[i].path, folder) {
                proof {
                    lemma_place(self.entries@, i as int);
                    lemma_remove(self.entries@, i as int);
                }
                let ghost before = self.entries@;
                let ghost before_map = self@;
                self.entries.remove(i);
                proof {
                    assert(self@ == before_map.remove(before[i as int].path@));
                    assert forall|path: Seq<char>| #[trigger] self@.contains_key(path) implies old(self)@.contains_key(path) && old(self)@[path] == self@[path] by {
                        assert(before_map.contains_key(path));
                    }
                    assert forall|path: Seq<char>|
                        old(self)@.contains_key(path) && !under(
                            path,
                            folder@,
                        ) implies #[trigger] self@.contains_key(path) by {
                        assert(before_map.contains_key(path));
                    }
                    assert forall|j: int| 0 <= j < i implies !under(
                        (#[trigger] self.entries@[j]).path@,
                        folder@,
                    ) by {
                        assert(self.entries@[j] == before[j]);
                    }
                }
            } else {
                i = i + 1;
            }
        }
        proof {
            let target = without_folder(old(self)@, folder@);
            assert forall|path: Seq<char>| #[trigger]
                self@.dom().contains(path) == target.dom().contains(path) by {
                if self@.contains_key(path) {
                    let j = place_of(self.entries@, path);
                    assert(!under(self.entries@[j].path@, folder@));
                }
            }
            assert(self@ =~= target);
        }
    }

    /// A copy of the map.
    pub fn duplicate(&self) -> (copy: Self)
        ensures
            copy.entries@ == self.entries@,
    {
        let mut entries: Vec<PathEntry> = Vec::new();
        let n = self.entries.len();
        let mut i: usize = 0;
        while i < n
            invariant
                i <= n,
                n == self.entries@.len(),
                entries@ == self.entries@.take(i as int),
            decreases n - i,
        {
            let entry = PathEntry {
                path: self.entries[i].path.clone(),
                source: self.entries[i].source,
            };
            entries.push(entry);
            assert(entries@ =~= self.entries@.take(i + 1));
            i = i + 1;
        }
        assert(self.entries@.take(n as int) =~= self.entries@);
        PathMap { entries }
    }
}

/// Whether the file at `path` lies under the folder `folder`.
pub fn lies_under(path: &String, folder: &String) -> (b: bool)
    ensures
        b == under(path@, folder@),
{
    let whole = path.as_str().as_bytes();
    let start = folder.as_str().as_bytes();
    assert(whole@ == encode_utf8(path@));
    assert(start@ == encode_utf8(folder@));
    if start.len() > whole.len() {
        return false;
    }
    let n = start.len();
    let mut i: usize = 0;
    while i < n
        invariant
            i <= n,
            n == start@.len(),
            n <= whole@.len(),
            whole@ == encode_utf8(path@),
            start@ == encode_utf8(folder@),
            whole@.subrange(0, i as int) == start@.subrange(0, i as int),
        decreases n - i,
    {
        if whole[i] != start[i] {
            assert(whole@.subrange(0, n as int)[i as int] == whole@[i as int]);
            return false;
        }
        assert(whole@.subrange(0, i + 1) =~= whole@.subrange(0, i as int).push(whole@[i as int]));
        assert(start@.subrange(0, i + 1) =~= start@.subrange(0, i as int).push(start@[i as int]));
        i = i + 1;
    }
    assert(start@.subrange(0, n as int) =~= start@);
    true
}

impl PartialEq for PathMap {
    /// Two maps are equal when they hold the same files with the same keys,
    /// in whatever order.
    fn eq(&self, other: &PathMap) -> (r: bool)
    {
        let n = self.entries.len();
        if n != other.entries.len() {
            return false;
        }
        let mut i: usize = 0;
        while i < n
            invariant
                i <= n,
                n == self.entries@.len(),
                n == other.entries@.len(),
                forall|j: int|
                    0 <= j < i ==> holds(other.entries@, (#[trigger] self.entries@[j]).path@)
                        && other.entries@[first_place(
                        other.entries@,
                        self.entries@[j].path@,
                    )].source == self.entries@[j].source,
            decreases n - i,
        {
            let found = match other.find(&self.entries[i].path) {
                Some(j) => other.entries[j].source == self.entries[i].source,
                None => false,
            };
            if !found {
                return false;
            }
            i = i + 1;
        }
        true
    }
}

impl PartialEqSpecImpl for PathMap {
    open spec fn obeys_eq_spec() -> bool {
        true
    }

    open spec fn eq_spec(&self, other: &PathMap) -> bool {
        same_files(self.entries@, other.entries@)
    }
}

} // verus!

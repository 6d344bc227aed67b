//! Scan results: the map from relative path to entry kind, and the scan
//! settings that decide which names are skipped.
//!
//! Walking the file system happens outside the library; the walk hands each
//! entry it finds to [`EntryMap::insert`].
use vstd::prelude::*;
use crate::config::ScanConfig;
use crate::relpath::{
    lemma_path_lt_asymmetric, lemma_path_lt_irreflexive, lemma_path_lt_total,
    lemma_path_lt_transitive, path_lt, Order, RelPath,
};

verus! {

/// A single entry in a folder (file or directory).
#[derive(Debug, Clone, Copy, PartialEq, Eq, Structural)]
pub struct Entry {
    pub is_dir: bool,
}

/// Path keys are strictly increasing in path order.
pub open spec fn sorted_paths(s: Seq<Seq<Seq<char>>>) -> bool {
    forall|i: int, j: int| 0 <= i < j < s.len() ==> path_lt(#[trigger] s[i], #[trigger] s[j])
}

/// The map whose keys are `keys` and whose value at `keys[i]` is `vals[i]`.
pub open spec fn map_from(keys: Seq<Seq<Seq<char>>>, vals: Seq<Entry>) -> Map<
    Seq<Seq<char>>,
    Entry,
> {
    Map::new(|k: Seq<Seq<char>>| keys.contains(k), |k: Seq<Seq<char>>| vals[keys.index_of(k)])
}

pub proof fn lemma_sorted_index_of(keys: Seq<Seq<Seq<char>>>, i: int)
    requires
        sorted_paths(keys),
        0 <= i < keys.len(),
    ensures
        keys.contains(keys[i]),
        keys.index_of(keys[i]) == i,
{
    assert(keys.contains(keys[i]));
    let j = keys.index_of(keys[i]);
    lemma_path_lt_irreflexive(keys[i]);
    if j < i {
        assert(path_lt(keys[j], keys[i]));
    } else if i < j {
        assert(path_lt(keys[i], keys[j]));
    }
}

pub proof fn lemma_map_from_at(keys: Seq<Seq<Seq<char>>>, vals: Seq<Entry>, i: int)
    requires
        sorted_paths(keys),
        0 <= i < keys.len(),
    ensures
        map_from(keys, vals).dom().contains(keys[i]),
        map_from(keys, vals)[keys[i]] == vals[i],
{
    lemma_sorted_index_of(keys, i);
}

/// Map from relative path to entry, kept sorted by path.
pub struct EntryMap {
    items: Vec<(RelPath, Entry)>,
}

impl EntryMap {
    /// The keys, in increasing path order.
    pub closed spec fn keys(&self) -> Seq<Seq<Seq<char>>> {
        self.items@.map_values(|it: (RelPath, Entry)| it.0@)
    }

    /// The entries, in the order of `keys`.
    pub closed spec fn values(&self) -> Seq<Entry> {
        self.items@.map_values(|it: (RelPath, Entry)| it.1)
    }

    #[verifier::type_invariant]
    closed spec fn keys_sorted(&self) -> bool {
        sorted_paths(self.keys())
    }

    /// What the sorted representation gives: sorted keys, aligned values, and
    /// a map view that holds exactly those pairs.
    pub open spec fn well_formed(&self) -> bool {
        &&& sorted_paths(self.keys())
        &&& self.keys().len() == self.values().len()
        &&& self@ == map_from(self.keys(), self.values())
    }
}

impl View for EntryMap {
    type V = Map<Seq<Seq<char>>, Entry>;

    closed spec fn view(&self) -> Map<Seq<Seq<char>>, Entry> {
        map_from(self.keys(), self.values())
    }
}

/// Everything a well-formed map tells about its keys and values.
pub proof fn lemma_well_formed_facts(m: &EntryMap)
    requires
        m.well_formed(),
    ensures
        forall|i: int|
            0 <= i < m.keys().len() ==> #[trigger] m@.dom().contains(m.keys()[i]) && m@[m.keys()[i]]
                == m.values()[i],
        forall|k: Seq<Seq<char>>| #[trigger] m@.dom().contains(k) ==> m.keys().contains(k),
{
    assert forall|i: int| 0 <= i < m.keys().len() implies #[trigger] m@.dom().contains(
        m.keys()[i],
    ) && m@[m.keys()[i]] == m.values()[i] by {
        lemma_map_from_at(m.keys(), m.values(), i);
    }
}

impl EntryMap {
    /// An empty map.
    pub fn new() -> (m: EntryMap)
        ensures
            m@ == Map::<Seq<Seq<char>>, Entry>::empty(),
            m.keys().len() == 0,
            m.well_formed(),
    {
        let m = EntryMap { items: Vec::new() };
        proof {
            assert(m@ =~= Map::<Seq<Seq<char>>, Entry>::empty());
        }
        m
    }

    /// Number of entries.
    pub fn len(&self) -> (n: usize)
        ensures
            n == self.keys().len(),
            n == self@.dom().len(),
            self.well_formed(),
    {
        proof {
            use_type_invariant(self);
            lemma_well_formed_facts(self);
            self.lemma_dom_len();
        }
        self.items.len()
    }

    proof fn lemma_dom_len(&self)
        requires
            sorted_paths(self.keys()),
        ensures
            self@.dom().len() == self.keys().len(),
    {
        let keys = self.keys();
        assert forall|i: int, j: int| 0 <= i < keys.len() && 0 <= j < keys.len() && i != j implies keys[i]
            != keys[j] by {
            if i < j {
                lemma_path_lt_asymmetric(keys[i], keys[j]);
            } else {
                lemma_path_lt_asymmetric(keys[j], keys[i]);
            }
        }
        assert(keys.no_duplicates());
        assert(self@.dom() =~= keys.to_set());
        keys.unique_seq_to_set();
    }

    /// The path at position `i` in path order.
    pub fn key_at(&self, i: usize) -> (p: &RelPath)
        requires
            i < self.keys().len(),
        ensures
            p@ == self.keys()[i as int],
    {
        &self.items[i].0
    }

    /// The entry at position `i` in path order.
    pub fn entry_at(&self, i: usize) -> (e: Entry)
        requires
            i < self.keys().len(),
        ensures
            e == self.values()[i as int],
    {
        self.items[i].1
    }

    /// The first position whose key does not come before `path`.
    fn lower_bound(&self, path: &RelPath) -> (r: usize)
        ensures
            r <= self.keys().len(),
            forall|j: int| 0 <= j < r ==> path_lt(#[trigger] self.keys()[j], path@),
            forall|j: int| r <= j < self.keys().len() ==> !path_lt(#[trigger] self.keys()[j], path@),
    {
        proof {
            use_type_invariant(self);
        }
        let ghost keys = self.keys();
        let mut lo: usize = 0;
        let mut hi: usize = self.items.len();
        while lo < hi
            invariant
                keys == self.keys(),
                sorted_paths(keys),
                hi <= keys.len(),
                keys.len() == self.items@.len(),
                lo <= hi,
                forall|j: int| 0 <= j < lo ==> path_lt(#[trigger] keys[j], path@),
                forall|j: int| hi <= j < keys.len() ==> !path_lt(#[trigger] keys[j], path@),
            decreases hi - lo,
        {
            let mid = lo + (hi - lo) / 2;
            let o = self.items[mid].0.compare(path);
            match o {
                Order::Less => {
                    proof {
                        assert forall|j: int| 0 <= j <= mid implies path_lt(
                            #[trigger] keys[j],
                            path@,
                        ) by {
                            if j < mid {
                                lemma_path_lt_transitive(keys[j], keys[mid as int], path@);
                            }
                        }
                    }
                    lo = mid + 1;
                },
                _ => {
                    proof {
                        assert forall|j: int| mid <= j < keys.len() implies !path_lt(
                            #[trigger] keys[j],
                            path@,
                        ) by {
                            if mid < j && path_lt(keys[j], path@) {
                                lemma_path_lt_transitive(keys[mid as int], keys[j], path@);
                            }
                        }
                    }
                    hi = mid;
                },
            }
        }
        lo
    }

    /// The entry stored for `path`, if any.
    pub fn get(&self, path: &RelPath) -> (r: Option<Entry>)
        ensures
            r == (if self@.dom().contains(path@) {
                Some(self@[path@])
            } else {
                None::<Entry>
            }),
    {
        proof {
            use_type_invariant(self);
        }
        let pos = self.lower_bound(path);
        let ghost keys = self.keys();
        if pos < self.items.len() && self.items[pos].0.same_as(path) {
            proof {
                lemma_map_from_at(keys, self.values(), pos as int);
            }
            Some(self.items[pos].1)
        } else {
            proof {
                if keys.contains(path@) {
                    let j = keys.index_of(path@);
                    lemma_path_lt_irreflexive(path@);
                    if pos < keys.len() && j > pos {
                        lemma_path_lt_total(keys[pos as int], path@);
                        lemma_path_lt_transitive(path@, keys[pos as int], keys[j]);
                    }
                }
            }
            None
        }
    }

    /// Whether `path` has an entry.
    pub fn contains_key(&self, path: &RelPath) -> (b: bool)
        ensures
            b == self@.dom().contains(path@),
    {
        match self.get(path) {
            Some(_) => true,
            None => false,
        }
    }

    /// Records `entry` for `path`, replacing an entry stored for it before.
    pub fn insert(&mut self, path: RelPath, entry: Entry)
        ensures
            final(self)@ == old(self)@.insert(path@, entry),
    {
        proof {
            use_type_invariant(&*self);
        }
        let pos = self.lower_bound(&path);
        let ghost ok = old(self).keys();
        let ghost ov = old(self).values();
        let ghost old_map = old(self)@;
        let mut items: Vec<(RelPath, Entry)> = Vec::new();
        std::mem::swap(&mut items, &mut self.items);
        assert(items@.map_values(|it: (RelPath, Entry)| it.0@) == ok);
        assert(items@.map_values(|it: (RelPath, Entry)| it.1) == ov);
        let ghost pv = path@;
        if pos < items.len() && items[pos].0.same_as(&path) {
            items.set(pos, (path, entry));
            let ghost nk = items@.map_values(|it: (RelPath, Entry)| it.0@);
            let ghost nv = items@.map_values(|it: (RelPath, Entry)| it.1);
            proof {
                assert(ok[pos as int] == pv);
                assert(nk =~= ok);
                assert(map_from(nk, nv).dom() =~= old_map.insert(pv, entry).dom());
                assert(nv =~= ov.update(pos as int, entry));
                assert forall|k: Seq<Seq<char>>| #[trigger] map_from(nk, nv).dom().contains(k)
                    implies map_from(nk, nv)[k] == old_map.insert(pv, entry)[k] by {
                    let i = nk.index_of(k);
                    lemma_sorted_index_of(nk, i);
                    lemma_sorted_index_of(ok, pos as int);
                    lemma_map_from_at(ok, ov, i);
                    if i != pos {
                        assert(k != pv);
                    }
                }
                assert(map_from(nk, nv) =~= old_map.insert(pv, entry));
            }
            self.items = items;
        } else {
            proof {
                if pos < ok.len() {
                    lemma_path_lt_total(ok[pos as int], pv);
                }
            }
            items.insert(pos, (path, entry));
            let ghost nk = items@.map_values(|it: (RelPath, Entry)| it.0@);
            let ghost nv = items@.map_values(|it: (RelPath, Entry)| it.1);
            proof {
                assert(nk =~= ok.insert(pos as int, pv));
                assert(nv =~= ov.insert(pos as int, entry));
                assert forall|i: int, j: int| 0 <= i < j < nk.len() implies path_lt(
                    #[trigger] nk[i],
                    #[trigger] nk[j],
                ) by {
                    if j < pos {
                    } else if j == pos {
                    } else if i < pos {
                        lemma_path_lt_transitive(nk[i], pv, ok[pos as int]);
                        if j - 1 > pos {
                            lemma_path_lt_transitive(nk[i], ok[pos as int], ok[j - 1]);
                        }
                    } else if i == pos {
                        if j - 1 > pos {
                            lemma_path_lt_transitive(pv, ok[pos as int], ok[j - 1]);
                        }
                    } else {
                        assert(nk[i] == ok[i - 1]);
                        assert(nk[j] == ok[j - 1]);
                    }
                }
                assert forall|k: Seq<Seq<char>>|
                    #![trigger map_from(nk, nv).dom().contains(k)]
                    #![trigger old_map.insert(pv, entry).dom().contains(k)]
                    map_from(nk, nv).dom().contains(k) == old_map.insert(pv, entry).dom().contains(
                    k) by {
                    if nk.contains(k) {
                        let i = nk.index_of(k);
                        if i < pos {
                            assert(ok[i] == k);
                        } else if i > pos {
                            assert(ok[i - 1] == k);
                        }
                    }
                    if ok.contains(k) {
                        let i = ok.index_of(k);
                        if i < pos {
                            assert(nk[i] == k);
                        } else {
                            assert(nk[i + 1] == k);
                        }
                    }
                    if k == pv {
                        assert(nk[pos as int] == k);
                    }
                }
                assert forall|k: Seq<Seq<char>>| #[trigger] map_from(nk, nv).dom().contains(k)
                    implies map_from(nk, nv)[k] == old_map.insert(pv, entry)[k] by {
                    let i = nk.index_of(k);
                    lemma_sorted_index_of(nk, i);
                    if i < pos {
                        assert(path_lt(nk[i], nk[pos as int]));
                        lemma_map_from_at(ok, ov, i);
                        lemma_path_lt_asymmetric(k, pv);
                    } else if i > pos {
                        assert(path_lt(nk[pos as int], nk[i]));
                        lemma_map_from_at(ok, ov, i - 1);
                        lemma_path_lt_asymmetric(pv, k);
                    }
                }
                assert(map_from(nk, nv) =~= old_map.insert(pv, entry));
            }
            self.items = items;
        }
    }
}

/// What a lookup gives back after an insert: the inserted entry at its
/// path, and at every other path what was there before (`EntryMap::insert`
/// gives `after` from `before`; `EntryMap::get` reads it).
pub proof fn law_get_after_insert(
    before: Map<Seq<Seq<char>>, Entry>,
    after: Map<Seq<Seq<char>>, Entry>,
    path: Seq<Seq<char>>,
    entry: Entry,
    other: Seq<Seq<char>>,
)
    requires
        after == before.insert(path, entry),
    ensures
        after.dom().contains(path) && after[path] == entry,
        other != path ==> (after.dom().contains(other) == before.dom().contains(other) && (before.dom().contains(
            other,
        ) ==> after[other] == before[other])),
{
}

/// What the folder walk reports for one item.
#[derive(Debug)]
pub enum ScanEvent {
    /// An item could not be read (permission error, broken link, ...).
    Unreadable,
    /// An item at `relative` (the empty path for the root itself), with its
    /// kind when its metadata could be read.
    Item { relative: RelPath, is_dir: Option<bool> },
}

/// Decides which names the scan skips.
pub struct Scanner {
    pub config: ScanConfig,
}

/// Whether `name` equals one of `patterns`.
pub open spec fn name_is_ignored(patterns: Seq<Seq<char>>, name: Seq<char>) -> bool {
    exists|i: int| 0 <= i < patterns.len() && patterns[i] == name
}

impl Scanner {
    pub fn new(config: ScanConfig) -> (s: Scanner)
        ensures
            s.config == config,
    {
        Scanner { config }
    }

    /// Whether an entry named `name` is skipped (together with everything
    /// below it). Only the last path segment is matched, whole and exactly:
    /// a pattern such as `target/debug` never matches.
    pub fn is_ignored(&self, name: &str) -> (b: bool)
        ensures
            b == name_is_ignored(crate::config::strings_view(self.config.ignore_patterns@), name@),
    {
        let owned = name.to_owned();
        let pats = &self.config.ignore_patterns;
        let ghost pv = crate::config::strings_view(pats@);
        let mut i: usize = 0;
        while i < pats.len()
            invariant
                i <= pats.len(),
                owned@ == name@,
                pv == crate::config::strings_view(pats@),
                pats@ == self.config.ignore_patterns@,
                forall|j: int| 0 <= j < i ==> pv[j] != name@,
            decreases pats.len() - i,
        {
            let eq = pats[i] == owned;
            proof {
                assert(pv.len() == pats@.len());
                assert(pv[i as int] == pats@[i as int]@);
            }
            if eq {
                proof {
                    assert(pv[i as int] == name@);
                    assert(name_is_ignored(pv, name@));
                }
                return true;
            }
            i = i + 1;
        }
        false
    }
}

impl Scanner {
    /// Whether the walk takes an item named `name` at `depth` (and
    /// everything below it). The root (depth 0) is always taken: ignore
    /// patterns apply to what is inside the compared trees, not to the
    /// folders the user chose.
    pub fn admits(&self, depth: usize, name: &str) -> (b: bool)
        ensures
            b == (depth == 0 || !name_is_ignored(crate::config::strings_view(self.config.ignore_patterns@), name@)),
    {
        depth == 0 || !self.is_ignored(name)
    }

    /// Records one item reported by the walk: an unreadable item counts as
    /// an error, so does an item whose metadata could not be read; the root
    /// itself is skipped; anything else goes into the map.
    pub fn record(map: &mut EntryMap, errors: &mut usize, event: ScanEvent)
        requires
            *old(errors) < usize::MAX,
        ensures
            match event {
                ScanEvent::Unreadable => final(map)@ == old(map)@ && *final(errors) == *old(errors) + 1,
                ScanEvent::Item { relative, is_dir } => if relative@.len() == 0 {
                    final(map)@ == old(map)@ && *final(errors) == *old(errors)
                } else {
                    match is_dir {
                        None => final(map)@ == old(map)@ && *final(errors) == *old(errors) + 1,
                        Some(d) => final(map)@ == old(map)@.insert(relative@, Entry { is_dir: d })
                            && *final(errors) == *old(errors),
                    }
                },
            },
    {
        match event {
            ScanEvent::Unreadable => {
                *errors = *errors + 1;
            },
            ScanEvent::Item { relative, is_dir } => {
                if relative.len() == 0 {
                    return;
                }
                match is_dir {
                    None => {
                        *errors = *errors + 1;
                    },
                    Some(d) => {
                        map.insert(relative, Entry { is_dir: d });
                    },
                }
            },
        }
    }
}

} // verus!

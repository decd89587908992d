//! In-memory trees: the entries a doer holds on one side of a sync, ordered
//! by canonical path, together with the scan that turns a tree into the
//! filtered, ordered entry list the reconciler consumes.

use vstd::prelude::*;

use crate::entry::Entry;
use crate::entry::EntryContent;
use crate::entry::TreeEntry;
use crate::filter::Filters;
use crate::path::RootRelativePath;
use crate::path::PathOrder;
use crate::path::bytes_compare;

verus! {

use crate::entry::EntryContentV;
use crate::entry::EntryDetailsV;
use crate::entry::EntryV;
use crate::entry::TreeEntryV;
use crate::entry::details_of;
use crate::entry::strictly_sorted_entries;
use crate::entry::strictly_sorted_tree;
use crate::filter::FilterRuleV;
use crate::filter::spec_included;
use crate::path::SLASH;
use crate::path::is_below;
use crate::path::lemma_lex_trichotomy;
use crate::path::lemma_lex_transitive;
use crate::path::lex_lt;

/// The contents at `p` in a tree, taking the first entry whose path is `p`.
pub open spec fn spec_tree_find(t: Seq<TreeEntryV>, p: Seq<u8>) -> Option<EntryContentV>
    decreases t.len(),
{
    if t.len() == 0 {
        None
    } else if t[0].path == p {
        Some(t[0].content)
    } else {
        spec_tree_find(t.drop_first(), p)
    }
}

/// What [`spec_tree_find`] returns is the first entry at the path; `None`
/// means no entry stands there.
pub proof fn lemma_tree_find(t: Seq<TreeEntryV>, p: Seq<u8>)
    ensures
        match spec_tree_find(t, p) {
            Some(c) => exists|i: int|
                0 <= i < t.len() && #[trigger] t[i].path == p && t[i].content == c,
            None => forall|i: int| 0 <= i < t.len() ==> (#[trigger] t[i].path) != p,
        },
    decreases t.len(),
{
    if t.len() > 0 && t[0].path != p {
        lemma_tree_find(t.drop_first(), p);
        match spec_tree_find(t, p) {
            Some(c) => {
                let j = choose|j: int|
                    0 <= j < t.drop_first().len() && #[trigger] t.drop_first()[j].path == p
                        && t.drop_first()[j].content == c;
                assert(t[j + 1].path == p && t[j + 1].content == c);
            },
            None => {
                assert forall|i: int| 0 <= i < t.len() implies (#[trigger] t[i].path) != p by {
                    if i > 0 {
                        assert(t.drop_first()[i - 1].path != p);
                    }
                }
            },
        }
    }
}

/// In a sorted tree, an entry at the path determines the find.
pub proof fn lemma_tree_find_at(t: Seq<TreeEntryV>, i: int)
    requires
        strictly_sorted_tree(t),
        0 <= i < t.len(),
    ensures
        spec_tree_find(t, t[i].path) == Some(t[i].content),
    decreases i,
{
    if i == 0 {
    } else {
        lemma_lex_trichotomy(t[0].path, t[i].path);
        assert(t[0].path != t[i].path);
        assert(t.drop_first()[i - 1] == t[i]);
        assert(strictly_sorted_tree(t.drop_first())) by {
            assert forall|a: int, b: int| 0 <= a < b < t.drop_first().len() implies lex_lt(
                #[trigger] t.drop_first()[a].path,
                #[trigger] t.drop_first()[b].path,
            ) by {
                assert(t[a + 1] == t.drop_first()[a]);
                assert(t[b + 1] == t.drop_first()[b]);
            }
        }
        lemma_tree_find_at(t.drop_first(), i - 1);
    }
}

/// An in-memory tree: the entries of one side of a sync, in strictly
/// ascending canonical path order, each file small enough for its length to
/// be reported as a 64-bit size.
#[derive(Debug, PartialEq, Eq)]
pub struct Tree {
    entries: Vec<TreeEntry>,
}

impl View for Tree {
    type V = Seq<TreeEntryV>;

    closed spec fn view(&self) -> Seq<TreeEntryV> {
        self.entries@.map_values(|e: TreeEntry| e@)
    }
}

/// Every file in the tree fits a 64-bit size.
pub open spec fn tree_sizes_fit(t: Seq<TreeEntryV>) -> bool {
    forall|i: int|
        0 <= i < t.len() ==> ((#[trigger] t[i].content) matches EntryContentV::File { bytes, .. }
            ==> bytes.len() <= u64::MAX)
}

impl Tree {
    #[verifier::type_invariant]
    spec fn wf(self) -> bool {
        &&& strictly_sorted_tree(self@)
        &&& tree_sizes_fit(self@)
    }

    /// An empty tree: the state of a destination root that does not exist.
    pub fn new() -> (r: Self)
        ensures
            r@ == Seq::<TreeEntryV>::empty(),
    {
        let r = Tree { entries: Vec::new() };
        proof {
            assert(r@ =~= Seq::<TreeEntryV>::empty());
        }
        r
    }

    /// A deep copy of the tree.
    pub fn duplicate(&self) -> (r: Self)
        ensures
            r@ == self@,
    {
        proof {
            use_type_invariant(self);
        }
        let mut entries: Vec<TreeEntry> = Vec::new();
        let mut i: usize = 0;
        while i < self.entries.len()
            invariant
                0 <= i <= self@.len(),
                self@.len() == self.entries@.len(),
                forall|k: int| 0 <= k < self@.len() ==> self@[k] == self.entries@[k]@,
                entries@.len() == i,
                forall|k: int| 0 <= k < i ==> entries@[k]@ == self@[k],
            decreases self@.len() - i,
        {
            let e = &self.entries[i];
            entries.push(TreeEntry { path: e.path.duplicate(), content: e.content.duplicate() });
            i += 1;
        }
        proof {
            assert(entries@.map_values(|e: TreeEntry| e@) =~= self@);
        }
        let r = Tree { entries };
        r
    }

    /// How many entries the tree holds.
    pub fn len(&self) -> (r: usize)
        ensures
            r == self@.len(),
    {
        self.entries.len()
    }

    /// The entry at an index of the ordered entry list.
    pub fn entry_at(&self, i: usize) -> (r: &TreeEntry)
        requires
            i < self@.len(),
        ensures
            r@ == self@[i as int],
    {
        &self.entries[i]
    }

    /// The contents at a path, if an entry stands there.
    pub fn find(&self, path: &RootRelativePath) -> (r: Option<&EntryContent>)
        ensures
            match spec_tree_find(self@, path@) {
                Some(c) => r matches Some(e) && e@ == c,
                None => r is None,
            },
    {
        self.find_bytes(path.as_bytes())
    }

    /// The contents at a path given as bytes, if an entry stands there.
    pub fn find_bytes(&self, path: &Vec<u8>) -> (r: Option<&EntryContent>)
        ensures
            match spec_tree_find(self@, path@) {
                Some(c) => r matches Some(e) && e@ == c,
                None => r is None,
            },
    {
        let mut i: usize = 0;
        proof {
            assert(self@.skip(0) =~= self@);
        }
        while i < self.entries.len()
            invariant
                0 <= i <= self@.len(),
                self@.len() == self.entries@.len(),
                forall|k: int| 0 <= k < self@.len() ==> self@[k] == self.entries@[k]@,
                spec_tree_find(self@.skip(i as int), path@) == spec_tree_find(self@, path@),
            decreases self@.len() - i,
        {
            proof {
                assert(self@.skip(i as int)[0] == self@[i as int]);
                assert(self@.skip(i as int).drop_first() =~= self@.skip(i as int + 1));
            }
            let e = &self.entries[i];
            if crate::path::bytes_equal(e.path.as_bytes(), path) {
                return Some(&e.content);
            }
            i += 1;
        }
        proof {
            assert(self@.skip(self@.len() as int).len() == 0);
        }
        None
    }

    /// The filtered, ordered entry list a doer reports for this tree: the
    /// included entries, each with its scan attributes, in canonical order.
    pub fn scan(&self, filters: &Filters) -> (r: Vec<Entry>)
        ensures
            r@.map_values(|e: Entry| e@) == spec_scan(self@, filters@),
            strictly_sorted_tree(self@),
            tree_sizes_fit(self@),
    {
        proof {
            use_type_invariant(self);
        }
        let mut out: Vec<Entry> = Vec::new();
        let mut i: usize = 0;
        proof {
            assert(self@.subrange(0, 0) =~= Seq::<TreeEntryV>::empty());
            assert(out@.map_values(|e: Entry| e@) =~= spec_scan(self@.subrange(0, 0), filters@));
        }
        while i < self.entries.len()
            invariant
                0 <= i <= self@.len(),
                self@.len() == self.entries@.len(),
                forall|k: int| 0 <= k < self@.len() ==> self@[k] == self.entries@[k]@,
                tree_sizes_fit(self@),
                out@.map_values(|e: Entry| e@) == spec_scan(self@.subrange(0, i as int), filters@),
            decreases self@.len() - i,
        {
            let ghost pre = self@.subrange(0, i as int);
            let e = &self.entries[i];
            proof {
                assert(self@.subrange(0, i + 1) =~= pre.push(self@[i as int]));
                lemma_scan_step(pre, self@[i as int], filters@);
            }
            if filters.includes(&e.path) {
                let ghost before = out@.map_values(|x: Entry| x@);
                let entry = Entry { path: e.path.duplicate(), details: e.content.details() };
                out.push(entry);
                proof {
                    assert(out@.map_values(|x: Entry| x@) =~= before.push(entry@));
                    assert(entry@ == entry_of_tree(self@[i as int]));
                }
            }
            i += 1;
        }
        proof {
            assert(self@.subrange(0, self@.len() as int) =~= self@);
        }
        out
    }

    /// Whether any entry lies strictly below the path.
    pub fn has_entries_below(&self, path: &RootRelativePath) -> (r: bool)
        ensures
            r == exists|i: int| 0 <= i < self@.len() && is_below(#[trigger] self@[i].path, path@),
    {
        let mut i: usize = 0;
        while i < self.entries.len()
            invariant
                0 <= i <= self@.len(),
                self@.len() == self.entries@.len(),
                forall|k: int| 0 <= k < self@.len() ==> self@[k] == self.entries@[k]@,
                forall|k: int| 0 <= k < i ==> !is_below(#[trigger] self@[k].path, path@),
            decreases self@.len() - i,
        {
            let e = &self.entries[i];
            if bytes_is_below(e.path.as_bytes(), path.as_bytes()) {
                proof {
                    assert(is_below(self@[i as int].path, path@));
                }
                return true;
            }
            i += 1;
        }
        false
    }

    /// Places contents at a path, replacing whatever entry stood there, and
    /// keeping the entries ordered.
    pub fn upsert(&mut self, path: RootRelativePath, content: EntryContent)
        ensures
            final(self)@ == spec_tree_upsert(old(self)@, TreeEntryV { path: path@, content: content@ }),
    {
        proof {
            use_type_invariant(&*self);
        }
        match &content {
            EntryContent::File { bytes, .. } => {
                let n = bytes.len();
                proof {
                    assert(bytes@.len() <= u64::MAX);
                }
            },
            _ => {},
        }
        let ghost ev = TreeEntryV { path: path@, content: content@ };
        let ghost told = self@;
        let mut v: Vec<TreeEntry> = Vec::new();
        std::mem::swap(&mut self.entries, &mut v);
        let mut i: usize = 0;
        while i < v.len() && matches!(
            bytes_compare(v[i].path.as_bytes(), path.as_bytes()),
            PathOrder::Less,
        )
            invariant
                0 <= i <= v@.len(),
                told.len() == v@.len(),
                forall|k: int| 0 <= k < told.len() ==> told[k] == v@[k]@,
                forall|k: int| 0 <= k < i ==> lex_lt(#[trigger] told[k].path, path@),
            decreases v@.len() - i,
        {
            i += 1;
        }
        proof {
            lemma_tree_upsert_split(told, ev, i as int);
            if i < told.len() {
                lemma_lex_trichotomy(told[i as int].path, path@);
            }
        }
        let entry = TreeEntry { path, content };
        let replace = i < v.len() && matches!(
            bytes_compare(v[i].path.as_bytes(), entry.path.as_bytes()),
            PathOrder::Equal,
        );
        if replace {
            v.remove(i);
        }
        v.insert(i, entry);
        proof {
            let newv = v@.map_values(|e: TreeEntry| e@);
            if replace {
                assert(newv =~= told.subrange(0, i as int) + seq![ev] + told.subrange(
                    i + 1,
                    told.len() as int,
                ));
            } else {
                assert(newv =~= told.subrange(0, i as int) + seq![ev] + told.subrange(
                    i as int,
                    told.len() as int,
                ));
            }
            lemma_tree_upsert_sorted(told, ev);
            lemma_tree_upsert_members(told, ev);
            assert forall|k: int|
                0 <= k < newv.len() implies ((#[trigger] newv[k].content)
                matches EntryContentV::File { bytes, .. } ==> bytes.len() <= u64::MAX) by {
                if newv[k] != ev {
                    let j = choose|j: int| 0 <= j < told.len() && #[trigger] told[j] == newv[k];
                }
            }
        }
        self.entries = v;
    }

    /// Removes the entry at a path, if one stands there.
    pub fn remove(&mut self, path: &RootRelativePath)
        ensures
            final(self)@ == spec_tree_remove(old(self)@, path@),
    {
        proof {
            use_type_invariant(&*self);
        }
        let ghost told = self@;
        proof {
            assert(told == old(self)@);
        }
        let mut v: Vec<TreeEntry> = Vec::new();
        std::mem::swap(&mut self.entries, &mut v);
        let mut i: usize = 0;
        while i < v.len()
            invariant
                0 <= i <= v@.len(),
                told == old(self)@,
                strictly_sorted_tree(told),
                tree_sizes_fit(told),
                told.len() == v@.len(),
                forall|k: int| 0 <= k < told.len() ==> told[k] == v@[k]@,
                forall|k: int| 0 <= k < i ==> (#[trigger] told[k].path) != path@,
            decreases v@.len() - i,
        {
            if crate::path::bytes_equal(v[i].path.as_bytes(), path.as_bytes()) {
                proof {
                    lemma_tree_remove_split(told, path@, i as int);
                }
                v.remove(i);
                proof {
                    assert(v@.map_values(|e: TreeEntry| e@) =~= told.subrange(0, i as int)
                        + told.subrange(i + 1, told.len() as int));
                    lemma_tree_remove_keeps_sorted(told, path@);
                }
                self.entries = v;
                return ;
            }
            i += 1;
        }
        proof {
            lemma_tree_remove_absent(told, path@);
            assert(v@.map_values(|e: TreeEntry| e@) =~= told);
        }
        self.entries = v;
    }
}

/// Whether `c` lies strictly below `p`, on byte strings.
pub fn bytes_is_below(c: &Vec<u8>, p: &Vec<u8>) -> (r: bool)
    ensures
        r == is_below(c@, p@),
{
    if p.len() == 0 {
        return c.len() > 0;
    }
    if c.len() <= p.len() {
        proof {
            assert(!is_below(c@, p@));
        }
        return false;
    }
    if c[p.len()] != SLASH {
        return false;
    }
    let mut i: usize = 0;
    while i < p.len()
        invariant
            0 <= i <= p@.len(),
            p@.len() < c@.len(),
            forall|k: int| 0 <= k < i ==> c@[k] == p@[k],
        decreases p@.len() - i,
    {
        if c[i] != p[i] {
            proof {
                assert(c@.subrange(0, p@.len() as int)[i as int] != p@[i as int]);
            }
            return false;
        }
        i += 1;
    }
    proof {
        assert(c@.subrange(0, p@.len() as int) =~= p@);
    }
    true
}

/// Placing an entry in an ordered entry list: before the first entry whose
/// path is not smaller, replacing it when the paths are equal.
pub open spec fn spec_tree_upsert(t: Seq<TreeEntryV>, e: TreeEntryV) -> Seq<TreeEntryV>
    decreases t.len(),
{
    if t.len() == 0 {
        seq![e]
    } else if lex_lt(e.path, t[0].path) {
        seq![e] + t
    } else if e.path == t[0].path {
        seq![e] + t.drop_first()
    } else {
        seq![t[0]] + spec_tree_upsert(t.drop_first(), e)
    }
}

/// Removing the first entry at a path from an entry list.
pub open spec fn spec_tree_remove(t: Seq<TreeEntryV>, p: Seq<u8>) -> Seq<TreeEntryV>
    decreases t.len(),
{
    if t.len() == 0 {
        t
    } else if t[0].path == p {
        t.drop_first()
    } else {
        seq![t[0]] + spec_tree_remove(t.drop_first(), p)
    }
}

/// The split form of an upsert at the position the ordered scan found.
proof fn lemma_tree_upsert_split(t: Seq<TreeEntryV>, e: TreeEntryV, i: int)
    requires
        0 <= i <= t.len(),
        forall|k: int| 0 <= k < i ==> lex_lt(#[trigger] t[k].path, e.path),
        i < t.len() ==> !lex_lt(t[i].path, e.path),
    ensures
        i < t.len() && t[i].path == e.path ==> spec_tree_upsert(t, e) == t.subrange(0, i)
            + seq![e] + t.subrange(i + 1, t.len() as int),
        !(i < t.len() && t[i].path == e.path) ==> spec_tree_upsert(t, e) == t.subrange(0, i)
            + seq![e] + t.subrange(i, t.len() as int),
    decreases i,
{
    if i == 0 {
        if t.len() == 0 {
            assert(spec_tree_upsert(t, e) =~= t.subrange(0, 0) + seq![e] + t.subrange(
                0,
                t.len() as int,
            ));
        } else if t[0].path == e.path {
            assert(spec_tree_upsert(t, e) =~= t.subrange(0, 0) + seq![e] + t.subrange(
                1,
                t.len() as int,
            ));
        } else {
            lemma_lex_trichotomy(e.path, t[0].path);
            assert(lex_lt(e.path, t[0].path));
            assert(spec_tree_upsert(t, e) =~= t.subrange(0, 0) + seq![e] + t.subrange(
                0,
                t.len() as int,
            ));
        }
    } else {
        lemma_lex_trichotomy(e.path, t[0].path);
        let tt = t.drop_first();
        assert forall|k: int| 0 <= k < i - 1 implies lex_lt(#[trigger] tt[k].path, e.path) by {
            assert(t[k + 1] == tt[k]);
        }
        if i - 1 < tt.len() {
            assert(tt[i - 1] == t[i]);
        }
        lemma_tree_upsert_split(tt, e, i - 1);
        if i < t.len() && t[i].path == e.path {
            assert(spec_tree_upsert(t, e) =~= t.subrange(0, i) + seq![e] + t.subrange(
                i + 1,
                t.len() as int,
            )) by {
                assert(tt.subrange(0, i - 1) =~= t.subrange(1, i));
                assert(tt.subrange(i, tt.len() as int) =~= t.subrange(i + 1, t.len() as int));
            }
        } else {
            assert(spec_tree_upsert(t, e) =~= t.subrange(0, i) + seq![e] + t.subrange(
                i,
                t.len() as int,
            )) by {
                assert(tt.subrange(0, i - 1) =~= t.subrange(1, i));
                assert(tt.subrange(i - 1, tt.len() as int) =~= t.subrange(i, t.len() as int));
            }
        }
    }
}

/// An upsert into a sorted list leaves it sorted, and the sizes stay as
/// they were for the entries kept.
pub proof fn lemma_tree_upsert_sorted(t: Seq<TreeEntryV>, e: TreeEntryV)
    requires
        strictly_sorted_tree(t),
    ensures
        strictly_sorted_tree(spec_tree_upsert(t, e)),
    decreases t.len(),
{
    if t.len() == 0 {
    } else if lex_lt(e.path, t[0].path) {
        let r = seq![e] + t;
        assert forall|a: int, b: int| 0 <= a < b < r.len() implies lex_lt(
            #[trigger] r[a].path,
            #[trigger] r[b].path,
        ) by {
            if a == 0 {
                if b > 1 {
                    lemma_lex_transitive(e.path, t[0].path, t[b - 1].path);
                }
            }
        }
    } else if e.path == t[0].path {
        let r = seq![e] + t.drop_first();
        assert forall|a: int, b: int| 0 <= a < b < r.len() implies lex_lt(
            #[trigger] r[a].path,
            #[trigger] r[b].path,
        ) by {
            if a == 0 {
                assert(r[b] == t[b]);
            } else {
                assert(r[a] == t[a] && r[b] == t[b]);
            }
        }
    } else {
        lemma_lex_trichotomy(e.path, t[0].path);
        let tt = t.drop_first();
        assert(strictly_sorted_tree(tt)) by {
            assert forall|a: int, b: int| 0 <= a < b < tt.len() implies lex_lt(
                #[trigger] tt[a].path,
                #[trigger] tt[b].path,
            ) by {
                assert(t[a + 1] == tt[a] && t[b + 1] == tt[b]);
            }
        }
        lemma_tree_upsert_sorted(tt, e);
        let rt = spec_tree_upsert(tt, e);
        let r = seq![t[0]] + rt;
        lemma_tree_upsert_members(tt, e);
        assert forall|a: int, b: int| 0 <= a < b < r.len() implies lex_lt(
            #[trigger] r[a].path,
            #[trigger] r[b].path,
        ) by {
            if a == 0 {
                assert(r[b] == rt[b - 1]);
                if rt[b - 1] == e {
                    assert(lex_lt(t[0].path, e.path));
                } else {
                    let j = choose|j: int| 0 <= j < tt.len() && #[trigger] tt[j] == rt[b - 1];
                    assert(t[j + 1] == tt[j]);
                }
            } else {
                assert(r[a] == rt[a - 1] && r[b] == rt[b - 1]);
            }
        }
    }
}

/// Every entry of an upsert result is the new entry or one of the old ones.
proof fn lemma_tree_upsert_members(t: Seq<TreeEntryV>, e: TreeEntryV)
    ensures
        forall|i: int|
            0 <= i < spec_tree_upsert(t, e).len() ==> (#[trigger] spec_tree_upsert(t, e)[i] == e
                || exists|j: int|
                0 <= j < t.len() && #[trigger] t[j] == spec_tree_upsert(t, e)[i]),
    decreases t.len(),
{
    let r = spec_tree_upsert(t, e);
    if t.len() == 0 {
    } else if lex_lt(e.path, t[0].path) {
        assert forall|i: int| 0 <= i < r.len() implies (#[trigger] r[i] == e || exists|j: int|
            0 <= j < t.len() && #[trigger] t[j] == r[i]) by {
            if i > 0 {
                assert(t[i - 1] == r[i]);
            }
        }
    } else if e.path == t[0].path {
        assert forall|i: int| 0 <= i < r.len() implies (#[trigger] r[i] == e || exists|j: int|
            0 <= j < t.len() && #[trigger] t[j] == r[i]) by {
            if i > 0 {
                assert(t[i] == r[i]);
            }
        }
    } else {
        let tt = t.drop_first();
        lemma_tree_upsert_members(tt, e);
        let rt = spec_tree_upsert(tt, e);
        assert forall|i: int| 0 <= i < r.len() implies (#[trigger] r[i] == e || exists|j: int|
            0 <= j < t.len() && #[trigger] t[j] == r[i]) by {
            if i == 0 {
                assert(t[0] == r[0]);
            } else {
                assert(r[i] == rt[i - 1]);
                if rt[i - 1] != e {
                    let j = choose|j: int| 0 <= j < tt.len() && #[trigger] tt[j] == rt[i - 1];
                    assert(t[j + 1] == rt[i - 1]);
                }
            }
        }
    }
}

/// The split form of a removal at the position the scan found.
proof fn lemma_tree_remove_split(t: Seq<TreeEntryV>, p: Seq<u8>, i: int)
    requires
        0 <= i < t.len(),
        t[i].path == p,
        forall|k: int| 0 <= k < i ==> (#[trigger] t[k].path) != p,
    ensures
        spec_tree_remove(t, p) == t.subrange(0, i) + t.subrange(i + 1, t.len() as int),
    decreases i,
{
    if i == 0 {
        assert(spec_tree_remove(t, p) =~= t.subrange(0, 0) + t.subrange(1, t.len() as int));
    } else {
        let tt = t.drop_first();
        assert forall|k: int| 0 <= k < i - 1 implies (#[trigger] tt[k].path) != p by {
            assert(t[k + 1] == tt[k]);
        }
        assert(tt[i - 1] == t[i]);
        lemma_tree_remove_split(tt, p, i - 1);
        assert(spec_tree_remove(t, p) =~= t.subrange(0, i) + t.subrange(i + 1, t.len() as int))
            by {
            assert(tt.subrange(0, i - 1) =~= t.subrange(1, i));
            assert(tt.subrange(i, tt.len() as int) =~= t.subrange(i + 1, t.len() as int));
        }
    }
}

/// Removing a path that stands nowhere in the list changes nothing.
proof fn lemma_tree_remove_absent(t: Seq<TreeEntryV>, p: Seq<u8>)
    requires
        forall|k: int| 0 <= k < t.len() ==> (#[trigger] t[k].path) != p,
    ensures
        spec_tree_remove(t, p) == t,
    decreases t.len(),
{
    if t.len() > 0 {
        let tt = t.drop_first();
        assert forall|k: int| 0 <= k < tt.len() implies (#[trigger] tt[k].path) != p by {
            assert(t[k + 1] == tt[k]);
        }
        lemma_tree_remove_absent(tt, p);
        assert(spec_tree_remove(t, p) =~= t);
    }
}

/// A removal keeps the list sorted and its file sizes fitting.
pub proof fn lemma_tree_remove_keeps_sorted(t: Seq<TreeEntryV>, p: Seq<u8>)
    requires
        strictly_sorted_tree(t),
    ensures
        strictly_sorted_tree(spec_tree_remove(t, p)),
        tree_sizes_fit(t) ==> tree_sizes_fit(spec_tree_remove(t, p)),
    decreases t.len(),
{
    let r = spec_tree_remove(t, p);
    if t.len() == 0 {
    } else if t[0].path == p {
        assert forall|a: int, b: int| 0 <= a < b < r.len() implies lex_lt(
            #[trigger] r[a].path,
            #[trigger] r[b].path,
        ) by {
            assert(r[a] == t[a + 1] && r[b] == t[b + 1]);
        }
        if tree_sizes_fit(t) {
            assert forall|i: int|
                0 <= i < r.len() implies ((#[trigger] r[i].content) matches EntryContentV::File {
                bytes,
                ..
            } ==> bytes.len() <= u64::MAX) by {
                assert(r[i] == t[i + 1]);
            }
        }
    } else {
        let tt = t.drop_first();
        assert(strictly_sorted_tree(tt)) by {
            assert forall|a: int, b: int| 0 <= a < b < tt.len() implies lex_lt(
                #[trigger] tt[a].path,
                #[trigger] tt[b].path,
            ) by {
                assert(t[a + 1] == tt[a] && t[b + 1] == tt[b]);
            }
        }
        if tree_sizes_fit(t) {
            assert(tree_sizes_fit(tt)) by {
                assert forall|i: int|
                    0 <= i < tt.len() implies ((#[trigger] tt[i].content)
                    matches EntryContentV::File { bytes, .. } ==> bytes.len() <= u64::MAX) by {
                    assert(tt[i] == t[i + 1]);
                }
            }
        }
        lemma_tree_remove_keeps_sorted(tt, p);
        lemma_tree_remove_members(tt, p);
        let rt = spec_tree_remove(tt, p);
        assert forall|a: int, b: int| 0 <= a < b < r.len() implies lex_lt(
            #[trigger] r[a].path,
            #[trigger] r[b].path,
        ) by {
            if a == 0 {
                assert(r[b] == rt[b - 1]);
                let j = choose|j: int| 0 <= j < tt.len() && #[trigger] tt[j] == rt[b - 1];
                assert(t[j + 1] == tt[j]);
            } else {
                assert(r[a] == rt[a - 1] && r[b] == rt[b - 1]);
            }
        }
        if tree_sizes_fit(t) {
            assert forall|i: int|
                0 <= i < r.len() implies ((#[trigger] r[i].content) matches EntryContentV::File {
                bytes,
                ..
            } ==> bytes.len() <= u64::MAX) by {
                if i > 0 {
                    assert(r[i] == rt[i - 1]);
                    let j = choose|j: int| 0 <= j < tt.len() && #[trigger] tt[j] == rt[i - 1];
                    assert(tt[j] == t[j + 1]);
                }
            }
        }
    }
}

/// Every entry of a removal result is one of the old entries.
proof fn lemma_tree_remove_members(t: Seq<TreeEntryV>, p: Seq<u8>)
    ensures
        forall|i: int|
            0 <= i < spec_tree_remove(t, p).len() ==> exists|j: int|
                0 <= j < t.len() && #[trigger] t[j] == #[trigger] spec_tree_remove(t, p)[i],
    decreases t.len(),
{
    let r = spec_tree_remove(t, p);
    if t.len() == 0 {
    } else if t[0].path == p {
        assert forall|i: int| #![trigger r[i]] 0 <= i < r.len() implies exists|j: int|
            0 <= j < t.len() && #[trigger] t[j] == r[i] by {
            assert(t[i + 1] == r[i]);
        }
    } else {
        let tt = t.drop_first();
        lemma_tree_remove_members(tt, p);
        let rt = spec_tree_remove(tt, p);
        assert forall|i: int| #![trigger r[i]] 0 <= i < r.len() implies exists|j: int|
            0 <= j < t.len() && #[trigger] t[j] == r[i] by {
            if i == 0 {
                assert(t[0] == r[0]);
            } else {
                assert(r[i] == rt[i - 1]);
                let j = choose|j: int| 0 <= j < tt.len() && #[trigger] tt[j] == rt[i - 1];
                assert(t[j + 1] == rt[i - 1]);
            }
        }
    }
}

/// The scan attributes of one tree entry.
pub open spec fn entry_of_tree(e: TreeEntryV) -> EntryV {
    EntryV { path: e.path, details: details_of(e.content) }
}

/// The entry list a conformant doer reports for a tree under a filter list:
/// the included entries, in order, with their scan attributes.
pub open spec fn spec_scan(t: Seq<TreeEntryV>, rules: Seq<FilterRuleV>) -> Seq<EntryV> {
    t.filter(|e: TreeEntryV| spec_included(rules, e.path)).map_values(
        |e: TreeEntryV| entry_of_tree(e),
    )
}

/// One step of a scan: appending a tree entry extends the scan by its
/// attributes exactly when the filter includes it.
pub proof fn lemma_scan_step_pub(t: Seq<TreeEntryV>, e: TreeEntryV, rules: Seq<FilterRuleV>)
    ensures
        spec_scan(t.push(e), rules) == if spec_included(rules, e.path) {
            spec_scan(t, rules).push(entry_of_tree(e))
        } else {
            spec_scan(t, rules)
        },
{
    lemma_scan_step(t, e, rules);
}

/// One step of a scan: appending a tree entry extends the scan by its
/// attributes exactly when the filter includes it.
proof fn lemma_scan_step(t: Seq<TreeEntryV>, e: TreeEntryV, rules: Seq<FilterRuleV>)
    ensures
        spec_scan(t.push(e), rules) == if spec_included(rules, e.path) {
            spec_scan(t, rules).push(entry_of_tree(e))
        } else {
            spec_scan(t, rules)
        },
{
    let pred = |x: TreeEntryV| spec_included(rules, x.path);
    t.lemma_filter_push(e, pred);
    if pred(e) {
        assert(spec_scan(t.push(e), rules) =~= spec_scan(t, rules).push(entry_of_tree(e)));
    }
}

/// What a scan contains: only included paths, drawn from the tree, every
/// included tree entry among them, and in canonical order when the tree is
/// sorted.
/// What a scan contains: only included paths, drawn from the tree, every
/// included tree entry among them, and in canonical order when the tree is
/// sorted.
pub proof fn lemma_scan_properties(t: Seq<TreeEntryV>, rules: Seq<FilterRuleV>)
    ensures
        spec_scan(t, rules).len() <= t.len(),
        forall|j: int|
            0 <= j < spec_scan(t, rules).len() ==> spec_included(
                rules,
                #[trigger] spec_scan(t, rules)[j].path,
            ),
        forall|j: int|
            0 <= j < spec_scan(t, rules).len() ==> exists|i: int|
                0 <= i < t.len() && #[trigger] spec_scan(t, rules)[j] == entry_of_tree(t[i]),
        forall|i: int|
            0 <= i < t.len() && spec_included(rules, (#[trigger] t[i]).path) ==> exists|j: int|
                0 <= j < spec_scan(t, rules).len() && spec_scan(t, rules)[j] == entry_of_tree(t[i]),
        strictly_sorted_tree(t) ==> strictly_sorted_entries(spec_scan(t, rules)),
{
    lemma_scan_members(t, rules);
    lemma_scan_complete(t, rules);
    if strictly_sorted_tree(t) {
        lemma_scan_sorted(t, rules);
    }
}

/// A scan is no longer than the tree, every scanned path is included, and
/// every scanned entry is the attributes of some tree entry.
proof fn lemma_scan_members(t: Seq<TreeEntryV>, rules: Seq<FilterRuleV>)
    ensures
        spec_scan(t, rules).len() <= t.len(),
        forall|j: int|
            0 <= j < spec_scan(t, rules).len() ==> spec_included(
                rules,
                #[trigger] spec_scan(t, rules)[j].path,
            ),
        forall|j: int|
            0 <= j < spec_scan(t, rules).len() ==> exists|i: int|
                0 <= i < t.len() && #[trigger] spec_scan(t, rules)[j] == entry_of_tree(t[i]),
    decreases t.len(),
{
    let scan = spec_scan(t, rules);
    let pred = |x: TreeEntryV| spec_included(rules, x.path);
    if t.len() == 0 {
        assert(t.filter(pred) =~= Seq::<TreeEntryV>::empty());
    } else {
        let tp = t.drop_last();
        lemma_scan_members(tp, rules);
        assert(tp.push(t.last()) =~= t);
        lemma_scan_step(tp, t.last(), rules);
        let sp = spec_scan(tp, rules);
        assert forall|j: int| 0 <= j < scan.len() implies spec_included(
            rules,
            #[trigger] scan[j].path,
        ) by {
            if j < sp.len() {
                assert(scan[j] == sp[j]);
            }
        }
        assert forall|j: int| 0 <= j < scan.len() implies exists|i: int|
            0 <= i < t.len() && #[trigger] scan[j] == entry_of_tree(t[i]) by {
            if j < sp.len() {
                assert(scan[j] == sp[j]);
                let i = choose|i: int| 0 <= i < tp.len() && #[trigger] sp[j] == entry_of_tree(tp[i]);
                assert(t[i] == tp[i]);
                assert(scan[j] == entry_of_tree(t[i]));
            } else {
                assert(scan[j] == entry_of_tree(t[t.len() - 1]));
            }
        }
    }
}

/// Every included tree entry appears in the scan.
proof fn lemma_scan_complete(t: Seq<TreeEntryV>, rules: Seq<FilterRuleV>)
    ensures
        forall|i: int|
            0 <= i < t.len() && spec_included(rules, (#[trigger] t[i]).path) ==> exists|j: int|
                0 <= j < spec_scan(t, rules).len() && spec_scan(t, rules)[j] == entry_of_tree(t[i]),
    decreases t.len(),
{
    let scan = spec_scan(t, rules);
    if t.len() > 0 {
        let tp = t.drop_last();
        lemma_scan_complete(tp, rules);
        assert(tp.push(t.last()) =~= t);
        lemma_scan_step(tp, t.last(), rules);
        let sp = spec_scan(tp, rules);
        assert forall|i: int|
            0 <= i < t.len() && spec_included(rules, (#[trigger] t[i]).path) implies exists|j: int|
            0 <= j < scan.len() && scan[j] == entry_of_tree(t[i]) by {
            if i < t.len() - 1 {
                assert(tp[i] == t[i]);
                let j = choose|j: int| 0 <= j < sp.len() && #[trigger] sp[j] == entry_of_tree(tp[i]);
                assert(scan[j] == sp[j]);
            } else {
                assert(spec_included(rules, t.last().path));
                assert(scan[scan.len() - 1] == entry_of_tree(t[i]));
            }
        }
    }
}

/// A scan of a sorted tree is sorted.
proof fn lemma_scan_sorted(t: Seq<TreeEntryV>, rules: Seq<FilterRuleV>)
    requires
        strictly_sorted_tree(t),
    ensures
        strictly_sorted_entries(spec_scan(t, rules)),
    decreases t.len(),
{
    let scan = spec_scan(t, rules);
    if t.len() > 0 {
        let tp = t.drop_last();
        assert(strictly_sorted_tree(tp)) by {
            assert forall|a: int, b: int| 0 <= a < b < tp.len() implies lex_lt(
                #[trigger] tp[a].path,
                #[trigger] tp[b].path,
            ) by {
                assert(t[a] == tp[a] && t[b] == tp[b]);
            }
        }
        lemma_scan_sorted(tp, rules);
        lemma_scan_members(tp, rules);
        assert(tp.push(t.last()) =~= t);
        lemma_scan_step(tp, t.last(), rules);
        let sp = spec_scan(tp, rules);
        let pred = |x: TreeEntryV| spec_included(rules, x.path);
        if pred(t.last()) {
            assert(scan == sp.push(entry_of_tree(t.last())));
            assert forall|a: int, b: int| 0 <= a < b < scan.len() implies lex_lt(
                #[trigger] scan[a].path,
                #[trigger] scan[b].path,
            ) by {
                if b < sp.len() {
                    assert(scan[a] == sp[a] && scan[b] == sp[b]);
                } else {
                    assert(scan[a] == sp[a]);
                    let i = choose|i: int|
                        0 <= i < tp.len() && #[trigger] sp[a] == entry_of_tree(tp[i]);
                    assert(t[i] == tp[i]);
                    assert(lex_lt(t[i].path, t[t.len() - 1].path));
                }
            }
        }
    }
}

/// What stands at each path after an upsert: the new contents at its path,
/// everything else unchanged.
pub proof fn lemma_tree_upsert_find(t: Seq<TreeEntryV>, e: TreeEntryV, q: Seq<u8>)
    ensures
        spec_tree_find(spec_tree_upsert(t, e), q) == (if q == e.path {
            Some(e.content)
        } else {
            spec_tree_find(t, q)
        }),
    decreases t.len(),
{
    let r = spec_tree_upsert(t, e);
    if t.len() == 0 {
        assert(r == seq![e]);
        assert(r[0] == e);
        if q != e.path {
            assert(spec_tree_find(r.drop_first(), q) is None) by {
                assert(r.drop_first().len() == 0);
            }
        }
    } else if lex_lt(e.path, t[0].path) {
        assert(r == seq![e] + t);
        assert(r[0] == e);
        assert(r.drop_first() =~= t);
    } else if e.path == t[0].path {
        assert(r == seq![e] + t.drop_first());
        assert(r[0] == e);
        assert(r.drop_first() =~= t.drop_first());
        if q != e.path {
            assert(spec_tree_find(t, q) == spec_tree_find(t.drop_first(), q));
        }
    } else {
        lemma_lex_trichotomy(e.path, t[0].path);
        assert(r == seq![t[0]] + spec_tree_upsert(t.drop_first(), e));
        assert(r[0] == t[0]);
        assert(r.drop_first() =~= spec_tree_upsert(t.drop_first(), e));
        lemma_tree_upsert_find(t.drop_first(), e, q);
        if q == e.path {
            assert(t[0].path != q);
        }
    }
}

/// What stands at each path after a removal from a sorted tree: nothing at
/// the removed path, everything else unchanged.
pub proof fn lemma_tree_remove_find(t: Seq<TreeEntryV>, p: Seq<u8>, q: Seq<u8>)
    requires
        strictly_sorted_tree(t),
    ensures
        spec_tree_find(spec_tree_remove(t, p), q) == (if q == p {
            None
        } else {
            spec_tree_find(t, q)
        }),
    decreases t.len(),
{
    let r = spec_tree_remove(t, p);
    if t.len() == 0 {
    } else if t[0].path == p {
        assert(r == t.drop_first());
        if q == p {
            assert forall|k: int| 0 <= k < r.len() implies (#[trigger] r[k].path) != p by {
                assert(r[k] == t[k + 1]);
                assert(lex_lt(t[0].path, t[k + 1].path));
                lemma_lex_trichotomy(t[0].path, t[k + 1].path);
            }
            lemma_tree_find_absent_pub(r, p);
        } else {
            assert(spec_tree_find(t, q) == spec_tree_find(t.drop_first(), q));
        }
    } else {
        assert(strictly_sorted_tree(t.drop_first())) by {
            assert forall|a: int, b: int| 0 <= a < b < t.drop_first().len() implies lex_lt(
                (#[trigger] t.drop_first()[a]).path,
                (#[trigger] t.drop_first()[b]).path,
            ) by {
                assert(t[a + 1] == t.drop_first()[a] && t[b + 1] == t.drop_first()[b]);
            }
        }
        lemma_tree_remove_find(t.drop_first(), p, q);
        assert(r == seq![t[0]] + spec_tree_remove(t.drop_first(), p));
        assert(r[0] == t[0]);
        assert(r.drop_first() =~= spec_tree_remove(t.drop_first(), p));
        if q == p {
            assert(t[0].path != q);
        }
    }
}

/// A path standing nowhere in a tree is not found.
pub proof fn lemma_tree_find_absent_pub(t: Seq<TreeEntryV>, p: Seq<u8>)
    requires
        forall|k: int| 0 <= k < t.len() ==> (#[trigger] t[k].path) != p,
    ensures
        spec_tree_find(t, p) is None,
    decreases t.len(),
{
    if t.len() > 0 {
        let tt = t.drop_first();
        assert forall|k: int| 0 <= k < tt.len() implies (#[trigger] tt[k].path) != p by {
            assert(t[k + 1] == tt[k]);
        }
        lemma_tree_find_absent_pub(tt, p);
    }
}

} // verus!

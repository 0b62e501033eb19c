//! The persisted sync state: for every asset ident, a record per sync
//! target of the content hash last uploaded, the backend id it got, and —
//! for local targets — the path of the written artifact.

use vstd::prelude::*;

use crate::asset_ident::AssetIdent;

verus! {

/// How one asset last synced to one target.
#[derive(Debug, Clone)]
pub struct TargetState {
    /// Content hash of the asset at its last successful sync to this target.
    pub hash: String,
    /// Backend-assigned reference to use at runtime.
    pub id: String,
    /// Absolute path of the written artifact, for local targets only.
    pub local_path: Option<String>,
}

/// The mathematical value of a `TargetState`.
pub struct TargetStateView {
    pub hash: Seq<char>,
    pub id: Seq<char>,
    pub local_path: Option<Seq<char>>,
}

impl View for TargetState {
    type V = TargetStateView;

    open spec fn view(&self) -> TargetStateView {
        TargetStateView {
            hash: self.hash@,
            id: self.id@,
            local_path: match self.local_path {
                Some(ref p) => Some(p@),
                None => None,
            },
        }
    }
}

impl TargetState {
    /// Builds a record from its parts.
    pub fn new(hash: String, id: String, local_path: Option<String>) -> (r: TargetState)
        ensures
            r@.hash == hash@,
            r@.id == id@,
            r@.local_path == match local_path {
                Some(p) => Some(p@),
                None => None::<Seq<char>>,
            },
    {
        TargetState { hash, id, local_path }
    }

    /// A copy of this record.
    pub fn duplicate(&self) -> (r: TargetState)
        ensures
            r@ == self@,
    {
        let local_path = match &self.local_path {
            Some(p) => Some(p.clone()),
            None => None,
        };
        TargetState { hash: self.hash.clone(), id: self.id.clone(), local_path }
    }
}

/// The first value bound to `k` in an association sequence.
pub open spec fn spec_lookup<V>(s: Seq<(Seq<char>, V)>, k: Seq<char>) -> Option<V>
    decreases s.len(),
{
    if s.len() == 0 {
        None
    } else if s[0].0 == k {
        Some(s[0].1)
    } else {
        spec_lookup(s.skip(1), k)
    }
}

/// True iff some entry binds `k`.
pub open spec fn spec_has_key<V>(s: Seq<(Seq<char>, V)>, k: Seq<char>) -> bool {
    exists|i: int| 0 <= i < s.len() && s[i].0 == k
}

/// True iff no two entries bind the same key.
pub open spec fn spec_unique_keys<V>(s: Seq<(Seq<char>, V)>) -> bool {
    forall|i: int, j: int| 0 <= i < j < s.len() ==> s[i].0 != s[j].0
}

pub proof fn lemma_lookup_is_some_iff_has_key<V>(s: Seq<(Seq<char>, V)>, k: Seq<char>)
    ensures
        spec_lookup(s, k) is Some <==> spec_has_key(s, k),
    decreases s.len(),
{
    if s.len() > 0 {
        lemma_lookup_is_some_iff_has_key(s.skip(1), k);
        if s[0].0 == k {
        } else {
            assert(spec_has_key(s.skip(1), k) ==> spec_has_key(s, k)) by {
                if spec_has_key(s.skip(1), k) {
                    let i = choose|i: int| 0 <= i < s.skip(1).len() && s.skip(1)[i].0 == k;
                    assert(s[i + 1].0 == k);
                }
            }
            assert(spec_has_key(s, k) ==> spec_has_key(s.skip(1), k)) by {
                if spec_has_key(s, k) {
                    let i = choose|i: int| 0 <= i < s.len() && s[i].0 == k;
                    assert(i != 0);
                    assert(s.skip(1)[i - 1].0 == k);
                }
            }
        }
    }
}

/// The earliest entry holding a key gives the lookup result.
pub proof fn lemma_lookup_first_index<V>(s: Seq<(Seq<char>, V)>, i: int)
    requires
        0 <= i < s.len(),
        forall|j: int| 0 <= j < i ==> s[j].0 != s[i].0,
    ensures
        spec_lookup(s, s[i].0) == Some(s[i].1),
    decreases s.len(),
{
    if i > 0 {
        assert(s[0].0 != s[i].0);
        assert(s.skip(1)[i - 1] == s[i]);
        assert(forall|j: int| 0 <= j < i - 1 ==> s.skip(1)[j] == s[j + 1]);
        lemma_lookup_first_index(s.skip(1), i - 1);
    }
}

/// An entry found at `i` gives the lookup result when keys are unique.
pub proof fn lemma_lookup_at_index<V>(s: Seq<(Seq<char>, V)>, i: int)
    requires
        spec_unique_keys(s),
        0 <= i < s.len(),
    ensures
        spec_lookup(s, s[i].0) == Some(s[i].1),
    decreases s.len(),
{
    if i > 0 {
        assert(s[0].0 != s[i].0);
        assert(s.skip(1)[i - 1] == s[i]);
        assert(spec_unique_keys(s.skip(1))) by {
            assert(forall|a: int, b: int|
                0 <= a < b < s.skip(1).len() ==> s.skip(1)[a] == s[a + 1] && s.skip(1)[b] == s[b
                    + 1]);
        }
        lemma_lookup_at_index(s.skip(1), i - 1);
    }
}

/// Updating the entry that holds a key rebinds that key and nothing else.
pub proof fn lemma_lookup_update<V>(s: Seq<(Seq<char>, V)>, i: int, e: (Seq<char>, V), k: Seq<char>)
    requires
        spec_unique_keys(s),
        0 <= i < s.len(),
        s[i].0 == e.0,
    ensures
        spec_lookup(s.update(i, e), k) == if k == e.0 {
            Some(e.1)
        } else {
            spec_lookup(s, k)
        },
    decreases s.len(),
{
    let t = s.update(i, e);
    if i == 0 {
        assert(t[0] == e);
        assert(t.skip(1) =~= s.skip(1));
        if k == e.0 {
        } else {
            assert(s[0].0 == e.0);
        }
    } else {
        assert(t[0] == s[0]);
        assert(t.skip(1) =~= s.skip(1).update(i - 1, e));
        assert(spec_unique_keys(s.skip(1))) by {
            assert(forall|a: int, b: int|
                0 <= a < b < s.skip(1).len() ==> s.skip(1)[a] == s[a + 1] && s.skip(1)[b] == s[b
                    + 1]);
        }
        assert(s.skip(1)[i - 1] == s[i]);
        lemma_lookup_update(s.skip(1), i - 1, e, k);
        if k == e.0 {
            assert(s[0].0 != s[i].0);
        }
    }
}

/// Appending an entry with a fresh key binds that key and nothing else.
pub proof fn lemma_lookup_push<V>(s: Seq<(Seq<char>, V)>, e: (Seq<char>, V), k: Seq<char>)
    requires
        !spec_has_key(s, e.0),
    ensures
        spec_lookup(s.push(e), k) == if k == e.0 {
            Some(e.1)
        } else {
            spec_lookup(s, k)
        },
    decreases s.len(),
{
    let t = s.push(e);
    if s.len() == 0 {
        assert(t[0] == e);
        assert(t.skip(1) =~= Seq::<(Seq<char>, V)>::empty());
        assert(spec_lookup(Seq::<(Seq<char>, V)>::empty(), k) is None);
        assert(spec_lookup(s, k) is None);
    } else {
        assert(t[0] == s[0]);
        assert(t.skip(1) =~= s.skip(1).push(e));
        assert(!spec_has_key(s.skip(1), e.0)) by {
            if spec_has_key(s.skip(1), e.0) {
                let i = choose|i: int| 0 <= i < s.skip(1).len() && s.skip(1)[i].0 == e.0;
                assert(s[i + 1].0 == e.0);
            }
        }
        lemma_lookup_push(s.skip(1), e, k);
        if k == e.0 {
            assert(s[0].0 != e.0);
        }
    }
}

/// A successful lookup names some entry of the sequence.
pub proof fn lemma_lookup_some_index<V>(s: Seq<(Seq<char>, V)>, k: Seq<char>)
    requires
        spec_lookup(s, k) is Some,
    ensures
        exists|i: int|
            0 <= i < s.len() && s[i].0 == k && s[i].1 == spec_lookup(s, k).unwrap(),
    decreases s.len(),
{
    if s.len() > 0 && s[0].0 != k {
        lemma_lookup_some_index(s.skip(1), k);
        let i = choose|i: int|
            0 <= i < s.skip(1).len() && s.skip(1)[i].0 == k && s.skip(1)[i].1 == spec_lookup(
                s.skip(1),
                k,
            ).unwrap();
        assert(s[i + 1].0 == k && s[i + 1].1 == spec_lookup(s, k).unwrap());
    }
}

/// Inserting an entry with a fresh key anywhere binds that key and nothing
/// else.
pub proof fn lemma_lookup_insert<V>(s: Seq<(Seq<char>, V)>, i: int, e: (Seq<char>, V), k: Seq<char>)
    requires
        0 <= i <= s.len(),
        !spec_has_key(s, e.0),
    ensures
        spec_lookup(s.insert(i, e), k) == if k == e.0 {
            Some(e.1)
        } else {
            spec_lookup(s, k)
        },
    decreases s.len(),
{
    let t = s.insert(i, e);
    if i == 0 {
        assert(t[0] == e);
        assert(t.skip(1) =~= s);
    } else {
        assert(t[0] == s[0]);
        assert(t.skip(1) =~= s.skip(1).insert(i - 1, e));
        assert(!spec_has_key(s.skip(1), e.0)) by {
            if spec_has_key(s.skip(1), e.0) {
                let j = choose|j: int| 0 <= j < s.skip(1).len() && s.skip(1)[j].0 == e.0;
                assert(s[j + 1].0 == e.0);
            }
        }
        lemma_lookup_insert(s.skip(1), i - 1, e, k);
        if k == s[0].0 {
            assert(s[0].0 != e.0);
        }
    }
}

/// The per-target records of one asset, keyed by target key; keys are
/// unique and lookups return the entry bound to the key.
#[derive(Debug, Clone)]
pub struct TargetMap {
    pub entries: Vec<(String, TargetState)>,
}

impl View for TargetMap {
    type V = Seq<(Seq<char>, TargetStateView)>;

    open spec fn view(&self) -> Seq<(Seq<char>, TargetStateView)> {
        Seq::new(self.entries@.len(), |i: int| (self.entries@[i].0@, self.entries@[i].1@))
    }
}

impl TargetMap {
    /// Key uniqueness, established by `new` and kept by `insert`.
    pub open spec fn wf(&self) -> bool {
        spec_unique_keys(self@)
    }

    /// An empty map.
    pub fn new() -> (r: TargetMap)
        ensures
            r@ =~= Seq::<(Seq<char>, TargetStateView)>::empty(),
            r.wf(),
    {
        TargetMap { entries: Vec::new() }
    }

    /// The record bound to `key`, if any.
    pub fn get(&self, key: &str) -> (r: Option<&TargetState>)
        ensures
            match r {
                Some(t) => spec_lookup(self@, key@) == Some(t@),
                None => spec_lookup(self@, key@) is None,
            },
    {
        let n = self.entries.len();
        proof {
            assert(self@.skip(0) =~= self@);
        }
        for i in 0..n
            invariant
                n == self.entries.len(),
                spec_lookup(self@, key@) == spec_lookup(self@.skip(i as int), key@),
        {
            let e = &self.entries[i];
            proof {
                assert(self@.skip(i as int)[0] == self@[i as int]);
                assert(self@.skip(i as int).skip(1) =~= self@.skip(i + 1));
            }
            if crate::strutil::str_eq(e.0.as_str(), key) {
                return Some(&e.1);
            }
        }
        proof {
            assert(self@.skip(n as int).len() == 0);
        }
        None
    }

    /// Binds `key` to `val`, overwriting any previous binding and touching
    /// no other key.
    pub fn insert(&mut self, key: String, val: TargetState)
        requires
            old(self).wf(),
        ensures
            final(self).wf(),
            spec_lookup(final(self)@, key@) == Some(val@),
            forall|k: Seq<char>|
                k != key@ ==> spec_lookup(final(self)@, k) == spec_lookup(old(self)@, k),
            final(self)@.len() == old(self)@.len() + if spec_has_key(old(self)@, key@) {
                0int
            } else {
                1int
            },
    {
        let ghost old_view = self@;
        let n = self.entries.len();
        let mut found: Option<usize> = None;
        for i in 0..n
            invariant
                n == self.entries.len(),
                match found {
                    Some(fi) => fi < i && old_view[fi as int].0 == key@,
                    None => forall|j: int| 0 <= j < i ==> old_view[j].0 != key@,
                },
                self@ == old_view,
        {
            if found.is_none() {
                let e = &self.entries[i];
                if crate::strutil::str_eq(e.0.as_str(), key.as_str()) {
                    found = Some(i);
                }
            }
        }
        match found {
            Some(i) => {
                proof {
                    lemma_lookup_update(old_view, i as int, (key@, val@), key@);
                }
                assert forall|k: Seq<char>| k != key@ implies spec_lookup(
                    old_view.update(i as int, (key@, val@)),
                    k,
                ) == spec_lookup(old_view, k) by {
                    lemma_lookup_update(old_view, i as int, (key@, val@), k);
                }
                self.entries.set(i, (key, val));
                proof {
                    assert(self@ =~= old_view.update(i as int, (key@, val@)));
                    assert(spec_has_key(old_view, self@[i as int].0));
                }
            },
            None => {
                proof {
                    assert(!spec_has_key(old_view, key@));
                    lemma_lookup_push(old_view, (key@, val@), key@);
                }
                assert forall|k: Seq<char>| k != key@ implies spec_lookup(
                    old_view.push((key@, val@)),
                    k,
                ) == spec_lookup(old_view, k) by {
                    lemma_lookup_push(old_view, (key@, val@), k);
                }
                self.entries.push((key, val));
                proof {
                    assert(self@ =~= old_view.push((key@, val@)));
                }
            },
        }
    }

    /// A copy of this map.
    pub fn duplicate(&self) -> (r: TargetMap)
        ensures
            r@ == self@,
    {
        let n = self.entries.len();
        let mut entries: Vec<(String, TargetState)> = Vec::new();
        for i in 0..n
            invariant
                n == self.entries.len(),
                entries@.len() == i,
                forall|j: int|
                    0 <= j < i ==> entries@[j].0@ == self.entries@[j].0@ && entries@[j].1@
                        == self.entries@[j].1@,
        {
            let e = &self.entries[i];
            entries.push((e.0.clone(), e.1.duplicate()));
        }
        let r = TargetMap { entries };
        proof {
            assert(r@ =~= self@);
        }
        r
    }
}

/// The persisted record of one asset: its per-target sync records.
#[derive(Debug, Clone)]
pub struct AssetState {
    pub targets: TargetMap,
}

impl View for AssetState {
    type V = Seq<(Seq<char>, TargetStateView)>;

    open spec fn view(&self) -> Seq<(Seq<char>, TargetStateView)> {
        self.targets@
    }
}

impl AssetState {
    /// A copy of this record.
    pub fn duplicate(&self) -> (r: AssetState)
        ensures
            r@ == self@,
    {
        AssetState { targets: self.targets.duplicate() }
    }
}

/// The persisted snapshot: a map from asset ident to that asset's
/// per-target sync records, read before a pass and written after it.
#[derive(Debug, Clone)]
pub struct State {
    pub assets: Vec<(AssetIdent, AssetState)>,
}

impl View for State {
    type V = Seq<(Seq<char>, Seq<(Seq<char>, TargetStateView)>)>;

    open spec fn view(&self) -> Seq<(Seq<char>, Seq<(Seq<char>, TargetStateView)>)> {
        Seq::new(self.assets@.len(), |i: int| (self.assets@[i].0@, self.assets@[i].1@))
    }
}

impl State {
    pub open spec fn wf(&self) -> bool {
        spec_unique_keys(self@)
    }

    /// Idents are unique, and so are the target keys inside each record.
    pub open spec fn deep_wf(&self) -> bool {
        &&& spec_unique_keys(self@)
        &&& forall|i: int| 0 <= i < self@.len() ==> spec_unique_keys(#[trigger] self@[i].1)
    }

    /// An empty snapshot.
    pub fn new() -> (r: State)
        ensures
            r@ =~= Seq::<(Seq<char>, Seq<(Seq<char>, TargetStateView)>)>::empty(),
            r.wf(),
    {
        State { assets: Vec::new() }
    }

    /// The record for `ident_text`, if any.
    pub fn get(&self, ident_text: &str) -> (r: Option<&AssetState>)
        ensures
            match r {
                Some(a) => spec_lookup(self@, ident_text@) == Some(a@),
                None => spec_lookup(self@, ident_text@) is None,
            },
    {
        let n = self.assets.len();
        proof {
            assert(self@.skip(0) =~= self@);
        }
        for i in 0..n
            invariant
                n == self.assets.len(),
                spec_lookup(self@, ident_text@) == spec_lookup(self@.skip(i as int), ident_text@),
        {
            let e = &self.assets[i];
            proof {
                assert(self@.skip(i as int)[0] == self@[i as int]);
                assert(self@.skip(i as int).skip(1) =~= self@.skip(i + 1));
            }
            if crate::strutil::str_eq(e.0.as_str(), ident_text) {
                return Some(&e.1);
            }
        }
        proof {
            assert(self@.skip(n as int).len() == 0);
        }
        None
    }

    /// Binds `ident` to `record`, overwriting any previous binding and
    /// touching no other ident.
    pub fn insert(&mut self, ident: AssetIdent, record: AssetState)
        requires
            old(self).wf(),
            spec_unique_keys(record@),
        ensures
            final(self).wf(),
            old(self).deep_wf() ==> final(self).deep_wf(),
            spec_lookup(final(self)@, ident@) == Some(record@),
            forall|k: Seq<char>|
                k != ident@ ==> spec_lookup(final(self)@, k) == spec_lookup(old(self)@, k),
            final(self)@.len() == old(self)@.len() + if spec_has_key(old(self)@, ident@) {
                0int
            } else {
                1int
            },
    {
        let ghost old_view = self@;
        let n = self.assets.len();
        let mut found: Option<usize> = None;
        for i in 0..n
            invariant
                n == self.assets.len(),
                match found {
                    Some(fi) => fi < i && old_view[fi as int].0 == ident@,
                    None => forall|j: int| 0 <= j < i ==> old_view[j].0 != ident@,
                },
                self@ == old_view,
        {
            if found.is_none() {
                let e = &self.assets[i];
                if crate::strutil::str_eq(e.0.as_str(), ident.as_str()) {
                    found = Some(i);
                }
            }
        }
        match found {
            Some(i) => {
                proof {
                    lemma_lookup_update(old_view, i as int, (ident@, record@), ident@);
                }
                assert forall|k: Seq<char>| k != ident@ implies spec_lookup(
                    old_view.update(i as int, (ident@, record@)),
                    k,
                ) == spec_lookup(old_view, k) by {
                    lemma_lookup_update(old_view, i as int, (ident@, record@), k);
                }
                self.assets.set(i, (ident, record));
                proof {
                    assert(self@ =~= old_view.update(i as int, (ident@, record@)));
                    assert(spec_has_key(old_view, self@[i as int].0));
                }
            },
            None => {
                proof {
                    assert(!spec_has_key(old_view, ident@));
                    lemma_lookup_push(old_view, (ident@, record@), ident@);
                }
                assert forall|k: Seq<char>| k != ident@ implies spec_lookup(
                    old_view.push((ident@, record@)),
                    k,
                ) == spec_lookup(old_view, k) by {
                    lemma_lookup_push(old_view, (ident@, record@), k);
                }
                self.assets.push((ident, record));
                proof {
                    assert(self@ =~= old_view.push((ident@, record@)));
                }
            },
        }
    }
}

} // verus!

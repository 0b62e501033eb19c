//! Codegen: reduces the final synced state to a nested key/value tree of
//! backend ids and serializes it in one of the supported output formats.
//! A path segment used both as a leaf and as an intermediate node is a
//! hard error, never a silent overwrite.

use vstd::prelude::*;

pub mod json;
pub mod luau;
pub mod typescript;

use crate::asset_ident::{
    spec_dir_prefix, spec_extension, spec_last_component, spec_stem, AssetIdent,
};
use crate::config::CodegenConfig;
use crate::state::{spec_lookup, State, TargetStateView};
use crate::strutil::{find_last_char, lemma_find_last_props, spec_is_prefix, str_eq};

verus! {

/// The output formats codegen can produce.
#[derive(Clone, Copy, Debug, PartialEq, Eq, Structural)]
pub enum CodegenFormat {
    Json,
    Luau,
    Typescript,
    TypescriptDeclaration,
}

/// Errors of codegen; `generate_all` collects them per output rather than
/// stopping at the first.
#[derive(Clone, Debug)]
pub enum CodegenError {
    /// Codegen finished, but this many of the outputs failed to generate.
    SomeFailed { failed: usize, total: usize },
    /// An asset has no recorded id for the codegen target.
    MissingAsset { ident: AssetIdent },
    /// A path segment is used both as a leaf and as an intermediate node.
    TreeStructure,
}

/// One node of the codegen tree: a nested object of further nodes, or a
/// backend id at a leaf.
#[derive(Debug)]
pub enum Value {
    Object(Object),
    Id(String),
}

/// The entries of an object node, keyed by path segment, in insertion
/// order with unique keys.
#[derive(Debug)]
pub struct Object {
    pub entries: Vec<(String, Value)>,
}

/// The mathematical value of a codegen tree.
pub enum TreeView {
    Node(Seq<(Seq<char>, TreeView)>),
    Leaf(Seq<char>),
}

pub open spec fn spec_value_view(v: Value) -> TreeView
    decreases v, 0int,
    via spec_value_view_decreases
{
    match v {
        Value::Id(s) => TreeView::Leaf(s@),
        Value::Object(o) => TreeView::Node(spec_entries_view_from(o.entries@, 0)),
    }
}

#[via_fn]
proof fn spec_value_view_decreases(v: Value) {
    match v {
        Value::Id(_) => {},
        Value::Object(o) => {
            assert(decreases_to!(v, 0int => o.entries@, o.entries@.len() - 0)) by {
                assert(decreases_to!(v => o));
                assert(decreases_to!(o => o.entries));
                assert(decreases_to!(o.entries => o.entries@));
            }
        },
    }
}

pub open spec fn spec_entries_view_from(s: Seq<(String, Value)>, i: int) -> Seq<
    (Seq<char>, TreeView),
>
    decreases s, s.len() - i,
    via spec_entries_view_from_decreases
{
    if i < 0 || i >= s.len() {
        Seq::empty()
    } else {
        seq![(s[i].0@, spec_value_view(s[i].1))] + spec_entries_view_from(s, i + 1)
    }
}

#[via_fn]
proof fn spec_entries_view_from_decreases(s: Seq<(String, Value)>, i: int) {
    if 0 <= i < s.len() {
        assert(decreases_to!(s, s.len() - i => s[i].1, 0int)) by {
            assert(decreases_to!(s => s[i]));
            assert(decreases_to!(s[i] => s[i].1));
        }
    }
}

pub open spec fn spec_object_view(o: Object) -> Seq<(Seq<char>, TreeView)> {
    spec_entries_view_from(o.entries@, 0)
}

/// The view of an object's entries, read off index by index.
pub proof fn lemma_entries_view_from(s: Seq<(String, Value)>, i: int)
    requires
        0 <= i <= s.len(),
    ensures
        spec_entries_view_from(s, i).len() == s.len() - i,
        forall|j: int|
            i <= j < s.len() ==> spec_entries_view_from(s, i)[j - i] == (
                s[j].0@,
                spec_value_view(s[j].1),
            ),
    decreases s.len() - i,
{
    if i < s.len() {
        lemma_entries_view_from(s, i + 1);
    }
}

pub proof fn lemma_object_view(o: Object)
    ensures
        spec_object_view(o).len() == o.entries@.len(),
        forall|j: int|
            0 <= j < o.entries@.len() ==> spec_object_view(o)[j] == (
                o.entries@[j].0@,
                spec_value_view(o.entries@[j].1),
            ),
{
    lemma_entries_view_from(o.entries@, 0);
}

/// Binds `k` to `v` in an association sequence: in place where `k` is
/// already bound, appended otherwise.
pub open spec fn spec_assoc_set(
    s: Seq<(Seq<char>, TreeView)>,
    k: Seq<char>,
    v: TreeView,
) -> Seq<(Seq<char>, TreeView)>
    decreases s.len(),
{
    if s.len() == 0 {
        seq![(k, v)]
    } else if s[0].0 == k {
        seq![(k, v)] + s.skip(1)
    } else {
        seq![s[0]] + spec_assoc_set(s.skip(1), k, v)
    }
}

/// Inserting the id at `path[from..]` into a node: walking an existing
/// leaf is the structural conflict (`None`); missing intermediate nodes
/// are created; the final segment is bound to the id.
pub open spec fn spec_tree_insert(
    n: Seq<(Seq<char>, TreeView)>,
    path: Seq<Seq<char>>,
    from: int,
    id: Seq<char>,
) -> Option<Seq<(Seq<char>, TreeView)>>
    decreases path.len() - from,
{
    if from >= path.len() - 1 {
        Some(spec_assoc_set(n, path[path.len() - 1], TreeView::Leaf(id)))
    } else {
        match spec_lookup(n, path[from]) {
            None => {
                match spec_tree_insert(Seq::empty(), path, from + 1, id) {
                    Some(c) => Some(spec_assoc_set(n, path[from], TreeView::Node(c))),
                    None => None,
                }
            },
            Some(TreeView::Node(c)) => {
                match spec_tree_insert(c, path, from + 1, id) {
                    Some(c2) => Some(spec_assoc_set(n, path[from], TreeView::Node(c2))),
                    None => None,
                }
            },
            Some(TreeView::Leaf(_)) => None,
        }
    }
}

/// A path segment already used as a leaf while more segments remain: the
/// one structural conflict.
pub open spec fn spec_tree_conflict(
    n: Seq<(Seq<char>, TreeView)>,
    path: Seq<Seq<char>>,
    from: int,
) -> bool
    decreases path.len() - from,
{
    if from >= path.len() - 1 {
        false
    } else {
        match spec_lookup(n, path[from]) {
            None => false,
            Some(TreeView::Leaf(_)) => true,
            Some(TreeView::Node(c)) => spec_tree_conflict(c, path, from + 1),
        }
    }
}

proof fn lemma_tree_insert_into_empty_succeeds(path: Seq<Seq<char>>, from: int, id: Seq<char>)
    ensures
        spec_tree_insert(Seq::<(Seq<char>, TreeView)>::empty(), path, from, id) is Some,
    decreases path.len() - from,
{
    if from < path.len() - 1 {
        lemma_tree_insert_into_empty_succeeds(path, from + 1, id);
    }
}

/// Tree-building conflicts are exact: inserting a key path fails iff some
/// proper prefix of it is already a leaf — a segment used both as a leaf
/// and as an intermediate node is a hard error, and nothing else is.
pub proof fn lemma_tree_insert_fails_iff_conflict(
    n: Seq<(Seq<char>, TreeView)>,
    path: Seq<Seq<char>>,
    from: int,
    id: Seq<char>,
)
    ensures
        spec_tree_insert(n, path, from, id) is None <==> spec_tree_conflict(n, path, from),
    decreases path.len() - from,
{
    if from < path.len() - 1 {
        match spec_lookup(n, path[from]) {
            None => {
                lemma_tree_insert_into_empty_succeeds(path, from + 1, id);
            },
            Some(TreeView::Node(c)) => {
                lemma_tree_insert_fails_iff_conflict(c, path, from + 1, id);
            },
            Some(TreeView::Leaf(_)) => {},
        }
    }
}

proof fn lemma_assoc_set_view(s: Seq<(Seq<char>, TreeView)>, k: Seq<char>, v: TreeView)
    ensures
        ({
            let r = spec_assoc_set(s, k, v);
            if crate::state::spec_has_key(s, k) {
                exists|i: int|
                    0 <= i < s.len() && s[i].0 == k && (forall|j: int| 0 <= j < i ==> s[j].0 != k)
                        && r =~= s.update(i, (k, v))
            } else {
                r =~= s.push((k, v))
            }
        }),
    decreases s.len(),
{
    let r = spec_assoc_set(s, k, v);
    if s.len() == 0 {
        assert(!crate::state::spec_has_key(s, k));
        assert(r =~= s.push((k, v)));
    } else if s[0].0 == k {
        assert(r =~= s.update(0, (k, v)));
        assert(crate::state::spec_has_key(s, k));
    } else {
        lemma_assoc_set_view(s.skip(1), k, v);
        assert(crate::state::spec_has_key(s, k) <==> crate::state::spec_has_key(s.skip(1), k)) by {
            if crate::state::spec_has_key(s, k) {
                let i = choose|i: int| 0 <= i < s.len() && s[i].0 == k;
                assert(i != 0);
                assert(s.skip(1)[i - 1].0 == k);
            }
            if crate::state::spec_has_key(s.skip(1), k) {
                let i = choose|i: int| 0 <= i < s.skip(1).len() && s.skip(1)[i].0 == k;
                assert(s[i + 1].0 == k);
            }
        }
        if crate::state::spec_has_key(s, k) {
            let i = choose|i: int|
                0 <= i < s.skip(1).len() && s.skip(1)[i].0 == k && (forall|j: int|
                    0 <= j < i ==> s.skip(1)[j].0 != k) && spec_assoc_set(s.skip(1), k, v)
                    =~= s.skip(1).update(i, (k, v));
            assert(s[i + 1].0 == k);
            assert(forall|j: int| 0 <= j < i + 1 ==> s[j].0 != k) by {
                assert(forall|j: int| 1 <= j < i + 1 ==> s[j] == s.skip(1)[j - 1]);
            }
            assert(r =~= s.update(i + 1, (k, v)));
        } else {
            assert(r =~= s.push((k, v)));
        }
    }
}

/// The sequence of segments of a path list.
pub open spec fn spec_path_view(s: Seq<String>) -> Seq<Seq<char>> {
    Seq::new(s.len(), |i: int| s[i]@)
}

/// Builds the chain of nested objects holding `id` at `path[from..]`.
fn build_chain(path: &Vec<String>, from: usize, id: String) -> (r: Object)
    requires
        from < path@.len(),
    ensures
        Some(spec_object_view(r)) == spec_tree_insert(
            Seq::<(Seq<char>, TreeView)>::empty(),
            spec_path_view(path@),
            from as int,
            id@,
        ),
    decreases path@.len() - from,
{
    let ghost pathv = spec_path_view(path@);
    if from == path.len() - 1 {
        let key = path[from].clone();
        let mut entries: Vec<(String, Value)> = Vec::new();
        entries.push((key, Value::Id(id)));
        let r = Object { entries };
        proof {
            lemma_object_view(r);
            assert(spec_object_view(r) =~= spec_assoc_set(
                Seq::<(Seq<char>, TreeView)>::empty(),
                pathv[pathv.len() - 1],
                TreeView::Leaf(r.entries@[0].1->Id_0@),
            ));
        }
        r
    } else {
        let key = path[from].clone();
        let child = build_chain(path, from + 1, id);
        let mut entries: Vec<(String, Value)> = Vec::new();
        entries.push((key, Value::Object(child)));
        let r = Object { entries };
        proof {
            lemma_object_view(r);
            assert(spec_lookup(Seq::<(Seq<char>, TreeView)>::empty(), pathv[from as int]) is None);
            assert(spec_object_view(r) =~= spec_assoc_set(
                Seq::<(Seq<char>, TreeView)>::empty(),
                pathv[from as int],
                TreeView::Node(spec_object_view(child)),
            ));
        }
        r
    }
}

/// Inserts the id at `path[from..]` into the object, failing exactly on a
/// structural conflict: a segment of the path that is already a leaf.
pub fn tree_insert(o: Object, path: &Vec<String>, from: usize, id: String) -> (r: Result<
    Object,
    CodegenError,
>)
    requires
        from < path@.len(),
    ensures
        match r {
            Ok(o2) => Some(spec_object_view(o2)) == spec_tree_insert(
                spec_object_view(o),
                spec_path_view(path@),
                from as int,
                id@,
            ),
            Err(e) => e matches CodegenError::TreeStructure && spec_tree_insert(
                spec_object_view(o),
                spec_path_view(path@),
                from as int,
                id@,
            ) is None,
        },
    decreases path@.len() - from,
{
    let ghost pathv = spec_path_view(path@);
    let ghost ov = spec_object_view(o);
    let mut o = o;
    if from == path.len() - 1 {
        let key = path[from].clone();
        obj_set(&mut o, key, Value::Id(id));
        Ok(o)
    } else {
        let key = path[from].clone();
        let found = obj_find_index(&o, key.as_str());
        match found {
            Some(idx) => {
                proof {
                    lemma_object_view(o);
                    assert(ov[idx as int].0 == pathv[from as int]);
                    assert(forall|j: int| 0 <= j < idx ==> ov[j].0 != ov[idx as int].0);
                    crate::state::lemma_lookup_first_index(ov, idx as int);
                }
                let ghost old_entries = o.entries@;
                let (k0, v0) = o.entries.remove(idx);
                match v0 {
                    Value::Object(child) => {
                        proof {
                            assert(spec_lookup(ov, pathv[from as int]) == Some(
                                TreeView::Node(spec_object_view(child)),
                            ));
                        }
                        match tree_insert(child, path, from + 1, id) {
                            Ok(c2) => {
                                o.entries.insert(idx, (k0, Value::Object(c2)));
                                proof {
                                    let tv = TreeView::Node(spec_object_view(c2));
                                    lemma_assoc_set_view(ov, pathv[from as int], tv);
                                    assert(crate::state::spec_has_key(ov, pathv[from as int])) by {
                                        assert(ov[idx as int].0 == pathv[from as int]);
                                    }
                                    let wi = choose|wi: int|
                                        0 <= wi < ov.len() && ov[wi].0 == pathv[from as int] && (
                                        forall|j: int| 0 <= j < wi ==> ov[j].0 != pathv[from as int])
                                            && spec_assoc_set(ov, pathv[from as int], tv) =~= ov.update(
                                            wi,
                                            (pathv[from as int], tv),
                                        );
                                    assert(wi == idx);
                                    assert(o.entries@ =~= old_entries.update(
                                        idx as int,
                                        (k0, Value::Object(c2)),
                                    ));
                                    lemma_object_view(o);
                                    assert(k0@ == pathv[from as int]);
                                    assert(spec_object_view(o) =~= ov.update(
                                        idx as int,
                                        (pathv[from as int], tv),
                                    ));
                                }
                                Ok(o)
                            },
                            Err(e) => Err(e),
                        }
                    },
                    Value::Id(s) => {
                        proof {
                            assert(spec_lookup(ov, pathv[from as int]) == Some(
                                TreeView::Leaf(s@),
                            ));
                        }
                        Err(CodegenError::TreeStructure)
                    },
                }
            },
            None => {
                let ghost old_entries = o.entries@;
                let child = build_chain(path, from + 1, id);
                o.entries.push((key, Value::Object(child)));
                proof {
                    let tv = TreeView::Node(spec_object_view(child));
                    assert(!crate::state::spec_has_key(ov, pathv[from as int])) by {
                        crate::state::lemma_lookup_is_some_iff_has_key(ov, pathv[from as int]);
                    }
                    lemma_assoc_set_view(ov, pathv[from as int], tv);
                    assert(o.entries@ =~= old_entries.push((key, Value::Object(child))));
                    lemma_entries_view_from(old_entries, 0);
                    lemma_object_view(o);
                    assert(spec_object_view(o) =~= ov.push((pathv[from as int], tv)));
                }
                Ok(o)
            },
        }
    }
}

/// Looks up the index of a key among an object's entries; `None` means
/// the key is unbound.
fn obj_find_index(o: &Object, key: &str) -> (r: Option<usize>)
    ensures
        match r {
            Some(i) => i < o.entries@.len() && o.entries@[i as int].0@ == key@ && forall|j: int|
                0 <= j < i ==> o.entries@[j].0@ != key@,
            None => spec_lookup(spec_object_view(*o), key@) is None,
        },
{
    let n = o.entries.len();
    let ghost ov = spec_object_view(*o);
    proof {
        lemma_object_view(*o);
        assert(ov.skip(0) =~= ov);
    }
    for i in 0..n
        invariant
            n == o.entries@.len(),
            ov == spec_object_view(*o),
            ov.len() == n,
            spec_lookup(ov, key@) == spec_lookup(ov.skip(i as int), key@),
            forall|j: int| 0 <= j < i ==> o.entries@[j].0@ != key@,
    {
        proof {
            lemma_object_view(*o);
            assert(ov.skip(i as int)[0] == ov[i as int]);
            assert(ov.skip(i as int).skip(1) =~= ov.skip(i + 1));
        }
        if str_eq(o.entries[i].0.as_str(), key) {
            return Some(i);
        }
    }
    proof {
        assert(ov.skip(n as int).len() == 0);
    }
    None
}

/// Binds `key` to `val` among an object's entries, in place where bound,
/// appended otherwise.
fn obj_set(o: &mut Object, key: String, val: Value)
    ensures
        spec_object_view(*final(o)) == spec_assoc_set(
            spec_object_view(*old(o)),
            key@,
            spec_value_view(val),
        ),
{
    let ghost ov = spec_object_view(*old(o));
    let ghost vv = spec_value_view(val);
    proof {
        lemma_assoc_set_view(ov, key@, vv);
        lemma_object_view(*old(o));
    }
    let found = obj_find_index(o, key.as_str());
    let ghost old_entries = o.entries@;
    match found {
        Some(i) => {
            o.entries.set(i, (key, val));
            proof {
                assert(crate::state::spec_has_key(ov, key@)) by {
                    assert(ov[i as int].0 == key@);
                }
                let wi = choose|wi: int|
                    0 <= wi < ov.len() && ov[wi].0 == key@ && (forall|j: int|
                        0 <= j < wi ==> ov[j].0 != key@) && spec_assoc_set(ov, key@, vv) =~= ov.update(
                        wi,
                        (key@, vv),
                    );
                assert(forall|j: int| 0 <= j < i ==> ov[j].0 != key@);
                assert(ov[i as int].0 == key@);
                assert(wi == i);
                assert(o.entries@ =~= old_entries.update(i as int, (key, val)));
                lemma_object_view(*o);
                assert(spec_object_view(*o) =~= ov.update(i as int, (key@, vv)));
            }
        },
        None => {
            o.entries.push((key, val));
            proof {
                assert(!crate::state::spec_has_key(ov, key@)) by {
                    crate::state::lemma_lookup_is_some_iff_has_key(ov, key@);
                }
                assert(o.entries@ =~= old_entries.push((key, val)));
                lemma_object_view(*o);
                assert(spec_object_view(*o) =~= ov.push((key@, vv)));
            }
        },
    }
}

/// Stripping a configured leading path from an output key: removed when
/// the key is the prefix itself or continues it across a `/`, kept
/// unchanged otherwise.
pub open spec fn spec_strip_path_prefix(s: Seq<char>, pre: Seq<char>) -> Seq<char> {
    if pre.len() == 0 {
        s
    } else if s == pre {
        Seq::empty()
    } else if spec_is_prefix(s, pre + seq!['/']) {
        s.skip(pre.len() as int + 1)
    } else {
        s
    }
}

/// Removing the file extension from an output key: the dot and what
/// follows it go; a key without an extension is unchanged.
pub open spec fn spec_remove_extension(s: Seq<char>) -> Seq<char> {
    match spec_extension(s) {
        Some(_) => spec_dir_prefix(s) + spec_stem(spec_last_component(s)),
        None => s,
    }
}

/// The output key of an ident: the ident with the configured prefix and,
/// when configured, its extension removed.
pub open spec fn spec_transform_ident(
    ident: Seq<char>,
    strip_prefix: Option<Seq<char>>,
    strip_extension: bool,
) -> Seq<char> {
    let p = match strip_prefix {
        Some(pre) => spec_strip_path_prefix(ident, pre),
        None => ident,
    };
    if strip_extension {
        spec_remove_extension(p)
    } else {
        p
    }
}

fn strip_path_prefix(s: &str, pre: &str) -> (r: String)
    ensures
        r@ == spec_strip_path_prefix(s@, pre@),
{
    let pn = pre.unicode_len();
    let n = s.unicode_len();
    if pn == 0 {
        return s.to_owned();
    }
    if str_eq(s, pre) {
        return String::new();
    }
    if pn < n {
        let mut pre2 = pre.to_owned();
        crate::strutil::push_char(&mut pre2, '/');
        proof {
            assert(pre2@ =~= pre@ + seq!['/']);
        }
        if crate::strutil::str_is_prefix(s, pre2.as_str()) {
            let r = s.substring_char(pn + 1, n);
            proof {
                assert(r@ =~= s@.skip(pre@.len() as int + 1));
            }
            return r.to_owned();
        }
        return s.to_owned();
    }
    proof {
        assert((pre@ + seq!['/']).len() == pre@.len() + 1);
        assert(!spec_is_prefix(s@, pre@ + seq!['/']));
    }
    s.to_owned()
}

fn remove_extension(s: &str) -> (r: String)
    ensures
        r@ == spec_remove_extension(s@),
{
    let n = s.unicode_len();
    let name_start: usize = match find_last_char(s, '/') {
        Some(i) => {
            proof {
                lemma_find_last_props(s@, '/');
            }
            i + 1
        },
        None => 0,
    };
    let name = s.substring_char(name_start, n);
    proof {
        assert(name@ =~= s@.skip(name_start as int));
        assert(name@ == spec_last_component(s@));
    }
    match find_last_char(name, '.') {
        Some(j) if j > 0 => {
            proof {
                lemma_find_last_props(name@, '.');
            }
            let r = s.substring_char(0, name_start + j);
            proof {
                assert(spec_dir_prefix(s@) =~= s@.take(name_start as int));
                assert(spec_stem(spec_last_component(s@)) == name@.take(j as int));
                assert(r@ =~= spec_dir_prefix(s@) + spec_stem(spec_last_component(s@)));
            }
            r.to_owned()
        },
        _ => s.to_owned(),
    }
}

/// Computes the output key of an ident under a codegen configuration.
pub fn transform_ident(ident: &AssetIdent, config: &CodegenConfig) -> (r: String)
    ensures
        r@ == spec_transform_ident(ident@, config@.strip_prefix, config@.strip_extension),
{
    let stripped = match &config.strip_prefix {
        Some(pre) => strip_path_prefix(ident.as_str(), pre.as_str()),
        None => ident.as_str().to_owned(),
    };
    if config.strip_extension {
        remove_extension(stripped.as_str())
    } else {
        stripped
    }
}

/// A key split at every `/`, empty pieces kept.
pub open spec fn spec_split_slash(s: Seq<char>) -> Seq<Seq<char>>
    decreases s.len(),
    via spec_split_slash_decreases
{
    match crate::strutil::spec_find_first(s, '/') {
        None => seq![s],
        Some(i) => seq![s.take(i)] + spec_split_slash(s.skip(i + 1)),
    }
}

#[via_fn]
proof fn spec_split_slash_decreases(s: Seq<char>) {
    crate::strutil::lemma_find_first_props(s, '/');
}

/// Splits a key at every `/`.
pub fn split_slash(s: &str) -> (r: Vec<String>)
    ensures
        spec_path_view(r@) == spec_split_slash(s@),
        r@.len() >= 1,
{
    let n = s.unicode_len();
    let mut r: Vec<String> = Vec::new();
    let mut start: usize = 0;
    let mut i: usize = 0;
    proof {
        assert(s@.skip(0) =~= s@);
        assert(spec_path_view(r@) =~= Seq::<Seq<char>>::empty());
    }
    while i < n
        invariant
            n == s@.len(),
            start <= i <= n,
            forall|j: int| start <= j < i ==> s@[j] != '/',
            spec_split_slash(s@) == spec_path_view(r@) + spec_split_slash(s@.skip(start as int)),
        decreases n - i,
    {
        let c = s.get_char(i);
        if c == '/' {
            let piece = s.substring_char(start, i);
            let ghost rv = spec_path_view(r@);
            r.push(piece.to_owned());
            proof {
                let t = s@.skip(start as int);
                crate::strutil::lemma_find_first_props(t, '/');
                assert(t[i - start] == s@[i as int]);
                assert(forall|j: int| 0 <= j < i - start ==> t[j] == s@[start + j]);
                assert(crate::strutil::spec_find_first(t, '/') == Some(i - start as int)) by {
                    match crate::strutil::spec_find_first(t, '/') {
                        Some(f) => {
                            if f < i - start {
                                assert(t[f] == '/');
                                assert(s@[start + f] == '/');
                            }
                            if f > i - start {
                                assert(t[i - start] != '/');
                            }
                        },
                        None => {
                            assert(t[i - start] == '/');
                        },
                    }
                }
                assert(t.take(i - start as int) =~= s@.subrange(start as int, i as int));
                assert(t.skip(i - start + 1) =~= s@.skip(i + 1));
                assert(spec_path_view(r@) =~= rv.push(piece@));
                assert(spec_path_view(r@) + spec_split_slash(s@.skip(i + 1)) =~= rv + (seq![
                    s@.subrange(start as int, i as int)] + spec_split_slash(s@.skip(i + 1))));
            }
            start = i + 1;
        }
        i = i + 1;
    }
    let piece = s.substring_char(start, n);
    let ghost rv = spec_path_view(r@);
    r.push(piece.to_owned());
    proof {
        let t = s@.skip(start as int);
        crate::strutil::lemma_find_first_props(t, '/');
        assert(forall|j: int| 0 <= j < t.len() ==> t[j] == s@[start + j]);
        assert(crate::strutil::spec_find_first(t, '/') is None) by {
            match crate::strutil::spec_find_first(t, '/') {
                Some(f) => {
                    assert(t[f] == '/');
                    assert(s@[start + f] == '/');
                },
                None => {},
            }
        }
        assert(piece@ =~= t);
        assert(spec_path_view(r@) =~= rv.push(piece@));
        assert(spec_path_view(r@) =~= rv + seq![t]);
    }
    r
}

/// The tree path of one asset's output key: the whole key as one segment
/// when flattening, its `/`-separated segments otherwise.
pub open spec fn spec_key_path(ident: Seq<char>, cfg: crate::config::CodegenConfigView) -> Seq<
    Seq<char>,
> {
    let t = spec_transform_ident(ident, cfg.strip_prefix, cfg.strip_extension);
    if cfg.flatten {
        seq![t]
    } else {
        spec_split_slash(t)
    }
}

/// How building the codegen tree ends.
pub enum TreeBuild {
    /// Every asset placed; these are the root's entries.
    Built(Seq<(Seq<char>, TreeView)>),
    /// This ident has no record under the codegen target.
    MissingAsset(Seq<char>),
    /// A structural conflict: some key path crosses a leaf.
    Conflict,
}

/// Folding the assets of a state, in order, into the codegen tree.
pub open spec fn spec_build_from(
    n: Seq<(Seq<char>, TreeView)>,
    entries: Seq<(Seq<char>, Seq<(Seq<char>, TargetStateView)>)>,
    from: int,
    cfg: crate::config::CodegenConfigView,
    key: Seq<char>,
) -> TreeBuild
    decreases entries.len() - from,
{
    if from < 0 || from >= entries.len() {
        TreeBuild::Built(n)
    } else {
        match spec_lookup(entries[from].1, key) {
            None => TreeBuild::MissingAsset(entries[from].0),
            Some(ts) => match spec_tree_insert(n, spec_key_path(entries[from].0, cfg), 0, ts.id) {
                Some(n2) => spec_build_from(n2, entries, from + 1, cfg, key),
                None => TreeBuild::Conflict,
            },
        }
    }
}

/// Builds the codegen tree for one target from the final state: each
/// asset's recorded id is placed at its key path; an asset without a
/// record for the target, or a key path that crosses a leaf, fails the
/// build.
pub fn generate_tree(state: &State, config: &CodegenConfig, target: &crate::config::TargetConfig)
    -> (r: Result<Object, CodegenError>)
    ensures
        match r {
            Ok(o) => spec_build_from(
                Seq::<(Seq<char>, TreeView)>::empty(),
                state@,
                0,
                config@,
                target@.key,
            ) == TreeBuild::Built(spec_object_view(o)),
            Err(e) => match e {
                CodegenError::MissingAsset { ident } => spec_build_from(
                    Seq::<(Seq<char>, TreeView)>::empty(),
                    state@,
                    0,
                    config@,
                    target@.key,
                ) == TreeBuild::MissingAsset(ident@),
                CodegenError::TreeStructure => spec_build_from(
                    Seq::<(Seq<char>, TreeView)>::empty(),
                    state@,
                    0,
                    config@,
                    target@.key,
                ) == TreeBuild::Conflict,
                CodegenError::SomeFailed { .. } => false,
            },
        },
{
    let ghost stv = state@;
    let ghost cfgv = config@;
    let ghost keyv = target@.key;
    let mut root = Object { entries: Vec::new() };
    proof {
        lemma_object_view(root);
        assert(spec_object_view(root) =~= Seq::<(Seq<char>, TreeView)>::empty());
    }
    let n = state.assets.len();
    for i in 0..n
        invariant
            n == state.assets@.len(),
            stv == state@,
            cfgv == config@,
            keyv == target@.key,
            spec_build_from(Seq::<(Seq<char>, TreeView)>::empty(), stv, 0, cfgv, keyv)
                == spec_build_from(spec_object_view(root), stv, i as int, cfgv, keyv),
    {
        let entry = &state.assets[i];
        match entry.1.targets.get(target.key.as_str()) {
            None => {
                proof {
                    assert(stv[i as int].1 == entry.1.targets@);
                    assert(stv[i as int].0 == entry.0@);
                }
                return Err(CodegenError::MissingAsset { ident: entry.0.duplicate() });
            },
            Some(ts) => {
                let tstring = transform_ident(&entry.0, config);
                let parts: Vec<String> = if config.flatten {
                    let mut v: Vec<String> = Vec::new();
                    v.push(tstring);
                    v
                } else {
                    split_slash(tstring.as_str())
                };
                proof {
                    assert(spec_path_view(parts@) == spec_key_path(stv[i as int].0, cfgv)) by {
                        assert(stv[i as int].0 == entry.0@);
                        if cfgv.flatten {
                            assert(spec_path_view(parts@) =~= seq![
                                spec_transform_ident(
                                    entry.0@,
                                    cfgv.strip_prefix,
                                    cfgv.strip_extension,
                                )]);
                        }
                    }
                    assert(parts@.len() >= 1);
                }
                match tree_insert(root, &parts, 0, ts.id.clone()) {
                    Ok(o2) => {
                        proof {
                            assert(spec_lookup(stv[i as int].1, keyv) == Some(ts@));
                        }
                        root = o2;
                    },
                    Err(e) => {
                        proof {
                            assert(spec_lookup(stv[i as int].1, keyv) == Some(ts@));
                        }
                        return Err(e);
                    },
                }
            },
        }
    }
    Ok(root)
}

/// The rendering of a finished tree in one output format.
pub open spec fn spec_emit(format: CodegenFormat, root: TreeView) -> Seq<char> {
    match format {
        CodegenFormat::Json => json::spec_json_value(root, Seq::empty()),
        CodegenFormat::Luau => "return "@ + luau::spec_luau_value(root, Seq::empty()) + "\n"@,
        CodegenFormat::Typescript => typescript::spec_ts_header() + "\nexport default "@
            + typescript::spec_ts_value(root, Seq::empty(), false) + " as const;\n"@,
        CodegenFormat::TypescriptDeclaration => typescript::spec_ts_header()
            + "\ndeclare const assets: "@ + typescript::spec_ts_value(root, Seq::empty(), true)
            + ";\n\nexport = assets;\n"@,
    }
}

/// What one codegen output holds: the built tree rendered in the
/// configured format, or nothing where the build fails.
pub open spec fn spec_generate(
    st: Seq<(Seq<char>, Seq<(Seq<char>, TargetStateView)>)>,
    cfg: crate::config::CodegenConfigView,
    key: Seq<char>,
) -> Option<Seq<char>> {
    match spec_build_from(Seq::<(Seq<char>, TreeView)>::empty(), st, 0, cfg, key) {
        TreeBuild::Built(n) => Some(spec_emit(cfg.format, TreeView::Node(n))),
        TreeBuild::MissingAsset(_) => None,
        TreeBuild::Conflict => None,
    }
}

/// Builds and renders one configured output.
pub fn generate(state: &State, config: &CodegenConfig, target: &crate::config::TargetConfig) -> (r:
    Result<String, CodegenError>)
    ensures
        match r {
            Ok(s) => spec_generate(state@, config@, target@.key) == Some(s@),
            Err(e) => {
                &&& spec_generate(state@, config@, target@.key) is None
                &&& !(e matches CodegenError::SomeFailed { .. })
            },
        },
{
    let root = match generate_tree(state, config, target) {
        Ok(o) => o,
        Err(e) => {
            return Err(e);
        },
    };
    let tree = Value::Object(root);
    match config.format {
        CodegenFormat::Json => json::generate_json(&tree),
        CodegenFormat::Luau => luau::generate_luau(&tree),
        CodegenFormat::Typescript => typescript::generate_typescript(&tree),
        CodegenFormat::TypescriptDeclaration => typescript::generate_typescript_declaration(&tree),
    }
}

/// One finished output, ready to be written to its configured path.
#[derive(Debug)]
pub struct GeneratedOutput {
    /// Which codegen config this output came from.
    pub index: usize,
    /// The configured output path.
    pub path: String,
    /// The rendered output.
    pub contents: String,
}

/// True iff some output came from codegen config `j`.
pub open spec fn spec_has_output(outs: Seq<GeneratedOutput>, j: int) -> bool {
    exists|k: int| 0 <= k < outs.len() && (#[trigger] outs[k]).index == j
}

/// Generates every configured output for one target, collecting the ones
/// that succeed and counting the ones that fail; a failed output never
/// stops the others.
pub fn generate_all(config: &crate::config::Config, state: &State, target: &crate::config::TargetConfig)
    -> (r: (Vec<GeneratedOutput>, usize))
    ensures
        r.0@.len() + r.1 == config.codegens@.len(),
        forall|a: int, b: int| 0 <= a < b < r.0@.len() ==> r.0@[a].index < r.0@[b].index,
        forall|k: int|
            0 <= k < r.0@.len() ==> {
                let out = #[trigger] r.0@[k];
                &&& (out.index as int) < config.codegens@.len()
                &&& spec_generate(state@, config.codegens@[out.index as int]@, target@.key)
                    == Some(out.contents@)
                &&& out.path@ == config.codegens@[out.index as int]@.path
            },
        forall|j: int|
            0 <= j < config.codegens@.len() && !spec_has_output(r.0@, j) ==> spec_generate(
                state@,
                #[trigger] config.codegens@[j]@,
                target@.key,
            ) is None,
{
    let total = config.codegens.len();
    let mut outputs: Vec<GeneratedOutput> = Vec::new();
    let mut failed: usize = 0;
    for j in 0..total
        invariant
            total == config.codegens@.len(),
            outputs@.len() + failed == j,
            forall|a: int, b: int|
                0 <= a < b < outputs@.len() ==> outputs@[a].index < outputs@[b].index,
            forall|a: int| 0 <= a < outputs@.len() ==> (#[trigger] outputs@[a]).index < j,
            forall|k: int|
                0 <= k < outputs@.len() ==> {
                    let out = #[trigger] outputs@[k];
                    &&& (out.index as int) < total
                    &&& spec_generate(state@, config.codegens@[out.index as int]@, target@.key)
                        == Some(out.contents@)
                    &&& out.path@ == config.codegens@[out.index as int]@.path
                },
            forall|j0: int|
                0 <= j0 < j && !spec_has_output(outputs@, j0) ==> spec_generate(
                    state@,
                    #[trigger] config.codegens@[j0]@,
                    target@.key,
                ) is None,
    {
        let cfg = &config.codegens[j];
        let ghost outs0 = outputs@;
        match generate(state, cfg, target) {
            Ok(contents) => {
                outputs.push(GeneratedOutput { index: j, path: cfg.path.clone(), contents });
            },
            Err(_) => {
                failed = failed + 1;
            },
        }
        proof {
            assert forall|j0: int|
                0 <= j0 < j + 1 && !spec_has_output(outputs@, j0) implies spec_generate(
                state@,
                #[trigger] config.codegens@[j0]@,
                target@.key,
            ) is None by {
                if j0 < j {
                    assert forall|k: int|
                        0 <= k < outs0.len() && (#[trigger] outs0[k]).index == j0 implies false by {
                        assert(outputs@[k].index == j0);
                    }
                } else {
                    if outputs@.len() > outs0.len() {
                        assert(outputs@[outputs@.len() - 1].index == j0);
                    }
                }
            }
        }
    }
    (outputs, failed)
}

/// The codegen summary: success exactly when no output failed.
pub fn codegen_summary(failed: usize, total: usize) -> (r: Result<(), CodegenError>)
    ensures
        match r {
            Ok(()) => failed == 0,
            Err(e) => failed > 0 && (e matches CodegenError::SomeFailed {
                failed: f,
                total: t,
            } && f == failed && t == total),
        },
{
    if failed > 0 {
        Err(CodegenError::SomeFailed { failed, total })
    } else {
        Ok(())
    }
}

} // verus!

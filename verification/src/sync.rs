//! The sync pass: discovery records, the diff predicate that decides which
//! assets need syncing, the session that carries one pass, and the local
//! sync strategy's path building and bookkeeping.

use vstd::prelude::*;

use crate::asset_ident::{
    replace_slashes, spec_cache_busted, spec_normalized_ident, spec_replace_slashes,
    spec_supported_ident, AssetIdent,
};
use crate::state::{
    lemma_lookup_at_index, lemma_lookup_insert, lemma_lookup_update, spec_has_key, spec_lookup,
    spec_unique_keys, AssetState, State, TargetMap, TargetState, TargetStateView,
};
use crate::config::{spec_joined, Config, TargetConfig};
use crate::strutil::{
    lemma_lex_irrefl, lemma_lex_total, lemma_lex_trans, spec_is_prefix, spec_lex_lt, str_eq,
    str_lt,
};

verus! {

/// The content hash of a byte string, as rendered for state files.
pub uninterp spec fn spec_asset_hash(content: Seq<u8>) -> Seq<char>;

/// Relies on blake3::hash and blake3::Hash::to_hex: the digest is a
/// function of the input bytes alone, rendered as hex characters.
#[verifier::external_body]
pub(crate) fn generate_asset_hash(content: &Vec<u8>) -> (r: String)
    ensures
        r@ == spec_asset_hash(content@),
{
    blake3::hash(content.as_slice()).to_hex().as_str().to_owned()
}

/// Errors raised while syncing; the per-asset kinds are collected and
/// counted instead of stopping the pass.
#[derive(Clone, Debug)]
pub enum SyncError {
    /// An API key is required for remote sync targets.
    MissingApiKey,
    /// A user id or group id is required for remote sync targets.
    MissingCreator,
    /// A matched file's extension maps to no asset category.
    Unsupported { path: String },
    /// The pass finished, but this many per-asset errors were collected.
    HadErrors { error_count: usize },
    /// The remote backend answered in a form the client does not accept.
    RobloxApi,
}

/// One discovered asset within a single sync pass: its ident, where it
/// was found, its bytes and their hash, and its per-target sync records
/// seeded from the previous state.
#[derive(Debug)]
pub struct Asset {
    pub ident: AssetIdent,
    pub path: String,
    pub contents: Vec<u8>,
    pub hash: String,
    pub targets: TargetMap,
}

impl Asset {
    pub open spec fn wf(&self) -> bool {
        self.ident.wf() && self.targets.wf()
    }
}

/// Builds the in-memory record for one discovered file: its ident, the
/// hash of its bytes, and its target records seeded from the previous
/// state; fails exactly on files whose extension maps to no asset
/// category.
pub fn process_entry(prev_state: &State, root_path: &str, file_path: &str, contents: Vec<u8>) -> (r:
    Result<Asset, SyncError>)
    requires
        spec_is_prefix(file_path@, root_path@),
        prev_state.deep_wf(),
    ensures
        match r {
            Ok(a) => {
                &&& a.wf()
                &&& a.ident@ == spec_normalized_ident(root_path@, file_path@)
                &&& a.path@ == file_path@
                &&& a.contents@ == contents@
                &&& a.hash@ == spec_asset_hash(contents@)
                &&& a.targets@ == match spec_lookup(prev_state@, a.ident@) {
                    Some(t) => t,
                    None => Seq::<(Seq<char>, TargetStateView)>::empty(),
                }
            },
            Err(e) => {
                &&& e matches SyncError::Unsupported { path } && path@ == file_path@
                &&& !spec_supported_ident(spec_normalized_ident(root_path@, file_path@))
            },
        },
{
    let ident = match AssetIdent::from_paths(root_path, file_path) {
        Ok(i) => i,
        Err(_) => {
            return Err(SyncError::Unsupported { path: file_path.to_owned() });
        },
    };
    let targets = match prev_state.get(ident.as_str()) {
        Some(prev) => {
            proof {
                crate::state::lemma_lookup_some_index(prev_state@, ident@);
            }
            prev.targets.duplicate()
        },
        None => TargetMap::new(),
    };
    let hash = generate_asset_hash(&contents);
    Ok(Asset { ident, path: file_path.to_owned(), contents, hash, targets })
}

/// The previous sync record for one asset and one target, as the diff
/// engine reads it out of a persisted state.
pub open spec fn spec_prev_target(
    st: Seq<(Seq<char>, Seq<(Seq<char>, TargetStateView)>)>,
    ident: Seq<char>,
    target_key: Seq<char>,
) -> Option<TargetStateView> {
    match spec_lookup(st, ident) {
        Some(ts) => spec_lookup(ts, target_key),
        None => None,
    }
}

/// The diff predicate: an asset needs a (re-)sync to a target iff syncs
/// are forced, or no previous record exists for it under that target, or
/// the recorded hash differs from the current one, or — for targets that
/// check local artifacts — the recorded artifact path is missing or no
/// longer exists on disk.
pub open spec fn spec_needs_sync(
    force: bool,
    current_hash: Seq<char>,
    prev: Option<TargetStateView>,
    check_local_path: bool,
    local_path_exists: bool,
) -> bool {
    force || match prev {
        None => true,
        Some(p) => p.hash != current_hash || (check_local_path && (p.local_path is None
            || !local_path_exists)),
    }
}

/// Decides whether one asset needs syncing; `local_path_exists` reports
/// whether the file at the previous record's artifact path still exists,
/// and is read only when `check_local_path` is set and a path is
/// recorded.
pub fn needs_sync(
    force: bool,
    current_hash: &str,
    prev: Option<&TargetState>,
    check_local_path: bool,
    local_path_exists: bool,
) -> (r: bool)
    ensures
        r == spec_needs_sync(
            force,
            current_hash@,
            match prev {
                Some(p) => Some(p@),
                None => None,
            },
            check_local_path,
            local_path_exists,
        ),
{
    if force {
        return true;
    }
    match prev {
        None => true,
        Some(p) => {
            if !crate::strutil::str_eq(p.hash.as_str(), current_hash) {
                true
            } else if check_local_path {
                match &p.local_path {
                    None => true,
                    Some(_) => !local_path_exists,
                }
            } else {
                false
            }
        },
    }
}

/// The assets of a session, read as an association of ident to asset.
pub open spec fn spec_assets_view(s: Seq<Asset>) -> Seq<(Seq<char>, Asset)> {
    Seq::new(s.len(), |i: int| (s[i].ident@, s[i]))
}

/// The asset stored under an ident.
pub open spec fn spec_find_asset(s: Seq<Asset>, id: Seq<char>) -> Option<Asset> {
    spec_lookup(spec_assets_view(s), id)
}

/// Assets are kept in strictly increasing ident order, for deterministic
/// iteration and output.
pub open spec fn spec_assets_sorted(s: Seq<Asset>) -> bool {
    forall|i: int, j: int|
        0 <= i < j < s.len() ==> spec_lex_lt(s[i].ident@, s[j].ident@)
}

pub proof fn lemma_sorted_unique(s: Seq<Asset>)
    requires
        spec_assets_sorted(s),
    ensures
        spec_unique_keys(spec_assets_view(s)),
{
    let v = spec_assets_view(s);
    assert forall|i: int, j: int| 0 <= i < j < v.len() implies v[i].0 != v[j].0 by {
        if s[i].ident@ == s[j].ident@ {
            lemma_lex_irrefl(s[i].ident@);
        }
    }
}

/// One sync pass over one target: the configuration, the target being
/// synced, the previous persisted state, the discovered assets, and the
/// soft errors collected along the way.
#[derive(Debug)]
pub struct SyncSession {
    pub config: Config,
    pub target: TargetConfig,
    pub prev_state: State,
    pub force_sync: bool,
    pub assets: Vec<Asset>,
    pub errors: Vec<String>,
}

impl SyncSession {
    pub open spec fn wf(&self) -> bool {
        &&& spec_assets_sorted(self.assets@)
        &&& forall|i: int| 0 <= i < self.assets@.len() ==> (#[trigger] self.assets@[i]).wf()
        &&& self.prev_state.deep_wf()
    }

    /// Starts a pass: no assets discovered yet, no errors yet.
    pub fn new(force_sync: bool, config: Config, target: TargetConfig, prev_state: State) -> (r:
        SyncSession)
        requires
            prev_state.deep_wf(),
        ensures
            r.wf(),
            r.config == config,
            r.target == target,
            r.prev_state == prev_state,
            r.force_sync == force_sync,
            r.assets@ =~= Seq::<Asset>::empty(),
            r.errors@ =~= Seq::<String>::empty(),
    {
        SyncSession {
            config,
            target,
            prev_state,
            force_sync,
            assets: Vec::new(),
            errors: Vec::new(),
        }
    }

    /// Collects a soft error without stopping the pass.
    pub fn raise_error(&mut self, error: String)
        ensures
            final(self).errors@ == old(self).errors@.push(error),
            final(self).config == old(self).config,
            final(self).target == old(self).target,
            final(self).prev_state == old(self).prev_state,
            final(self).force_sync == old(self).force_sync,
            final(self).assets == old(self).assets,
    {
        raise_error(error, &mut self.errors);
    }

    /// Files a discovered asset under its ident, keeping assets in ident
    /// order; a rediscovered ident replaces the earlier asset.
    pub fn insert_asset(&mut self, asset: Asset)
        requires
            old(self).wf(),
            asset.wf(),
        ensures
            final(self).wf(),
            spec_find_asset(final(self).assets@, asset.ident@) == Some(asset),
            forall|k: Seq<char>|
                k != asset.ident@ ==> spec_find_asset(final(self).assets@, k) == spec_find_asset(
                    old(self).assets@,
                    k,
                ),
            final(self).assets@.len() == old(self).assets@.len() + if spec_has_key(
                spec_assets_view(old(self).assets@),
                asset.ident@,
            ) {
                0int
            } else {
                1int
            },
            final(self).config == old(self).config,
            final(self).target == old(self).target,
            final(self).prev_state == old(self).prev_state,
            final(self).force_sync == old(self).force_sync,
            final(self).errors == old(self).errors,
    {
        let ghost old_assets = self.assets@;
        let ghost old_view = spec_assets_view(old_assets);
        proof {
            lemma_sorted_unique(old_assets);
        }
        let n = self.assets.len();
        let mut i: usize = 0;
        loop
            invariant
                self == old(self),
                n == self.assets@.len(),
                i <= n,
                forall|j: int|
                    0 <= j < i ==> spec_lex_lt(
                        (#[trigger] self.assets@[j]).ident@,
                        asset.ident@,
                    ),
            ensures
                self == old(self),
                i <= n,
                forall|j: int|
                    0 <= j < i ==> spec_lex_lt(
                        (#[trigger] self.assets@[j]).ident@,
                        asset.ident@,
                    ),
                i == n || !spec_lex_lt(self.assets@[i as int].ident@, asset.ident@),
            decreases n - i,
        {
            if i == n {
                break ;
            }
            if !str_lt(self.assets[i].ident.as_str(), asset.ident.as_str()) {
                break ;
            }
            i = i + 1;
        }
        let replace = if i < n {
            str_eq(self.assets[i].ident.as_str(), asset.ident.as_str())
        } else {
            false
        };
        if replace {
            proof {
                assert(old_view[i as int].0 == asset.ident@);
                lemma_lookup_update(old_view, i as int, (asset.ident@, asset), asset.ident@);
                assert forall|k: Seq<char>| k != asset.ident@ implies spec_lookup(
                    old_view.update(i as int, (asset.ident@, asset)),
                    k,
                ) == spec_lookup(old_view, k) by {
                    lemma_lookup_update(old_view, i as int, (asset.ident@, asset), k);
                }
                assert(spec_has_key(old_view, asset.ident@));
            }
            self.assets.set(i, asset);
            proof {
                assert(spec_assets_view(self.assets@) =~= old_view.update(
                    i as int,
                    (asset.ident@, asset),
                ));
                assert(spec_assets_sorted(self.assets@)) by {
                    assert(forall|j: int|
                        0 <= j < n && j != i ==> self.assets@[j] == old_assets[j]);
                    assert(self.assets@[i as int].ident@ == old_assets[i as int].ident@);
                }
            }
        } else {
            proof {
                // Every stored ident differs from the new one.
                assert forall|j: int| 0 <= j < n implies old_view[j].0 != asset.ident@ by {
                    if j < i {
                        lemma_lex_irrefl(old_assets[j].ident@);
                        if old_assets[j].ident@ == asset.ident@ {
                            assert(spec_lex_lt(asset.ident@, asset.ident@));
                        }
                    } else if j == i {
                        lemma_lex_total(old_assets[j].ident@, asset.ident@);
                    } else {
                        lemma_lex_total(old_assets[i as int].ident@, asset.ident@);
                        if old_assets[j].ident@ == asset.ident@ {
                            assert(spec_lex_lt(old_assets[i as int].ident@, old_assets[j].ident@));
                            lemma_lex_irrefl(asset.ident@);
                            lemma_lex_trans(
                                asset.ident@,
                                old_assets[i as int].ident@,
                                old_assets[j].ident@,
                            );
                        }
                    }
                }
                assert(!spec_has_key(old_view, asset.ident@));
                lemma_lookup_insert(old_view, i as int, (asset.ident@, asset), asset.ident@);
                assert forall|k: Seq<char>| k != asset.ident@ implies spec_lookup(
                    old_view.insert(i as int, (asset.ident@, asset)),
                    k,
                ) == spec_lookup(old_view, k) by {
                    lemma_lookup_insert(old_view, i as int, (asset.ident@, asset), k);
                }
            }
            self.assets.insert(i, asset);
            proof {
                let t = self.assets@;
                assert(spec_assets_view(t) =~= old_view.insert(i as int, (asset.ident@, asset)));
                assert(spec_assets_sorted(t)) by {
                    assert(forall|j: int| 0 <= j < i ==> t[j] == old_assets[j]);
                    assert(t[i as int] == asset);
                    assert(forall|j: int| i < j < t.len() ==> t[j] == old_assets[j - 1]);
                    assert forall|a: int, b: int|
                        0 <= a < b < t.len() implies spec_lex_lt(t[a].ident@, t[b].ident@) by {
                        if a == i && b > i {
                            // The new asset sorts strictly before the element
                            // that was at the insertion point.
                            lemma_lex_total(old_assets[i as int].ident@, asset.ident@);
                            assert(spec_lex_lt(asset.ident@, old_assets[i as int].ident@));
                            if b - 1 > i {
                                lemma_lex_trans(
                                    asset.ident@,
                                    old_assets[i as int].ident@,
                                    old_assets[b - 1].ident@,
                                );
                            }
                        } else if a < i && b > i {
                            assert(a < b - 1);
                            assert(spec_lex_lt(old_assets[a].ident@, old_assets[b - 1].ident@));
                        }
                    }
                }
            }
        }
    }
}

/// Whether one asset needs syncing, as the plan decides it.
pub open spec fn spec_asset_needs_sync(
    force: bool,
    a: Asset,
    st: Seq<(Seq<char>, Seq<(Seq<char>, TargetStateView)>)>,
    target_key: Seq<char>,
    check_local_path: bool,
    local_path_exists: bool,
) -> bool {
    spec_needs_sync(
        force,
        a.hash@,
        spec_prev_target(st, a.ident@, target_key),
        check_local_path,
        local_path_exists,
    )
}

/// Filters the discovered assets down to the ones that need syncing,
/// returning their indices in order. `local_path_exists[i]` reports
/// whether asset `i`'s previously recorded artifact still exists on disk.
pub fn sync_plan(
    force: bool,
    assets: &Vec<Asset>,
    prev_state: &State,
    target_key: &str,
    check_local_path: bool,
    local_path_exists: &Vec<bool>,
) -> (plan: Vec<usize>)
    requires
        local_path_exists@.len() == assets@.len(),
    ensures
        forall|a: int| 0 <= a < plan@.len() ==> (#[trigger] plan@[a]) < assets@.len(),
        forall|a: int, b: int| 0 <= a < b < plan@.len() ==> plan@[a] < plan@[b],
        forall|a: int|
            0 <= a < plan@.len() ==> spec_asset_needs_sync(
                force,
                assets@[#[trigger] plan@[a] as int],
                prev_state@,
                target_key@,
                check_local_path,
                local_path_exists@[plan@[a] as int],
            ),
        forall|i: int|
            0 <= i < assets@.len() && spec_asset_needs_sync(
                force,
                #[trigger] assets@[i],
                prev_state@,
                target_key@,
                check_local_path,
                local_path_exists@[i],
            ) ==> plan@.contains(i as usize),
{
    let n = assets.len();
    let mut plan: Vec<usize> = Vec::new();
    for i in 0..n
        invariant
            n == assets@.len(),
            local_path_exists@.len() == n,
            forall|a: int| 0 <= a < plan@.len() ==> (#[trigger] plan@[a]) < i,
            forall|a: int, b: int| 0 <= a < b < plan@.len() ==> plan@[a] < plan@[b],
            forall|a: int|
                0 <= a < plan@.len() ==> spec_asset_needs_sync(
                    force,
                    assets@[#[trigger] plan@[a] as int],
                    prev_state@,
                    target_key@,
                    check_local_path,
                    local_path_exists@[plan@[a] as int],
                ),
            forall|j: int|
                0 <= j < i && spec_asset_needs_sync(
                    force,
                    #[trigger] assets@[j],
                    prev_state@,
                    target_key@,
                    check_local_path,
                    local_path_exists@[j],
                ) ==> plan@.contains(j as usize),
    {
        let a = &assets[i];
        let prev_ts: Option<&TargetState> = match prev_state.get(a.ident.as_str()) {
            Some(ast) => ast.targets.get(target_key),
            None => None,
        };
        let ghost plan_before = plan@;
        if needs_sync(force, a.hash.as_str(), prev_ts, check_local_path, local_path_exists[i]) {
            plan.push(i);
        }
        proof {
            assert forall|j: int|
                0 <= j < i + 1 && spec_asset_needs_sync(
                    force,
                    #[trigger] assets@[j],
                    prev_state@,
                    target_key@,
                    check_local_path,
                    local_path_exists@[j],
                ) implies plan@.contains(j as usize) by {
                if j < i {
                    let a0 = choose|a0: int| 0 <= a0 < plan_before.len() && plan_before[a0] == j;
                    assert(plan@[a0] == j as usize);
                } else {
                    assert(plan@.last() == i as usize);
                }
            }
        }
    }
    plan
}

/// What a successful sync of one asset yields: the backend reference to
/// record, and — for local targets — the written artifact's path.
#[derive(Debug)]
pub struct SyncedRef {
    pub id: String,
    pub local_path: Option<String>,
}

pub struct SyncedRefView {
    pub id: Seq<char>,
    pub local_path: Option<Seq<char>>,
}

impl View for SyncedRef {
    type V = SyncedRefView;

    open spec fn view(&self) -> SyncedRefView {
        SyncedRefView {
            id: self.id@,
            local_path: match self.local_path {
                Some(ref p) => Some(p@),
                None => None,
            },
        }
    }
}

/// How the strategy's work on one planned asset ended: a reference to
/// record, or an error message to collect.
#[derive(Debug)]
pub struct SyncOutcome {
    pub index: usize,
    pub outcome: Result<SyncedRef, String>,
}

/// How many outcomes succeeded.
pub open spec fn spec_count_ok(s: Seq<SyncOutcome>) -> int
    decreases s.len(),
{
    if s.len() == 0 {
        0
    } else {
        spec_count_ok(s.drop_last()) + if s.last().outcome is Ok {
            1int
        } else {
            0int
        }
    }
}

/// True iff some outcome successfully synced asset `i`.
pub open spec fn spec_has_ok_outcome(s: Seq<SyncOutcome>, i: int) -> bool {
    exists|k: int| 0 <= k < s.len() && (#[trigger] s[k]).index == i && s[k].outcome is Ok
}

impl SyncSession {
    /// Records the strategy's outcomes: each success inserts a target
    /// record carrying the asset's current content hash — a record's hash
    /// always reflects content actually synced under its id — and each
    /// failure is collected as a soft error. Returns the success and
    /// failure counts.
    pub fn apply_outcomes(&mut self, outcomes: &Vec<SyncOutcome>) -> (counts: (usize, usize))
        requires
            old(self).wf(),
            forall|k: int|
                0 <= k < outcomes@.len() ==> (#[trigger] outcomes@[k]).index < old(
                    self,
                ).assets@.len(),
            forall|k1: int, k2: int|
                0 <= k1 < k2 < outcomes@.len() ==> outcomes@[k1].index < outcomes@[k2].index,
        ensures
            final(self).wf(),
            counts.0 + counts.1 == outcomes@.len(),
            counts.0 == spec_count_ok(outcomes@),
            final(self).assets@.len() == old(self).assets@.len(),
            forall|k: int|
                0 <= k < outcomes@.len() && (#[trigger] outcomes@[k]).outcome is Ok ==> {
                    let i = outcomes@[k].index as int;
                    let r = outcomes@[k].outcome->Ok_0;
                    &&& spec_lookup(final(self).assets@[i].targets@, old(self).target.key@)
                        == Some(
                        TargetStateView {
                            hash: old(self).assets@[i].hash@,
                            id: r@.id,
                            local_path: r@.local_path,
                        },
                    )
                    &&& forall|k2: Seq<char>|
                        k2 != old(self).target.key@ ==> spec_lookup(
                            final(self).assets@[i].targets@,
                            k2,
                        ) == spec_lookup(old(self).assets@[i].targets@, k2)
                },
            forall|i: int|
                0 <= i < old(self).assets@.len() && !spec_has_ok_outcome(outcomes@, i)
                    ==> final(self).assets@[i] == old(self).assets@[i],
            forall|i: int|
                0 <= i < old(self).assets@.len() ==> {
                    &&& (#[trigger] final(self).assets@[i]).ident == old(self).assets@[i].ident
                    &&& final(self).assets@[i].hash == old(self).assets@[i].hash
                    &&& final(self).assets@[i].path == old(self).assets@[i].path
                    &&& final(self).assets@[i].contents == old(self).assets@[i].contents
                },
            final(self).errors@.len() == old(self).errors@.len() + (outcomes@.len() - spec_count_ok(
                outcomes@,
            )),
            final(self).config == old(self).config,
            final(self).target == old(self).target,
            final(self).prev_state == old(self).prev_state,
            final(self).force_sync == old(self).force_sync,
    {
        let m = outcomes.len();
        let mut ok_count: usize = 0;
        let mut err_count: usize = 0;
        for k in 0..m
            invariant
                m == outcomes@.len(),
                ok_count == spec_count_ok(outcomes@.take(k as int)),
                ok_count + err_count == k,
                self.wf(),
                self.assets@.len() == old(self).assets@.len(),
                forall|k0: int|
                    0 <= k0 < m ==> (#[trigger] outcomes@[k0]).index < old(self).assets@.len(),
                forall|k1: int, k2: int|
                    0 <= k1 < k2 < m ==> outcomes@[k1].index < outcomes@[k2].index,
                forall|k0: int|
                    0 <= k0 < k && (#[trigger] outcomes@[k0]).outcome is Ok ==> {
                        let i = outcomes@[k0].index as int;
                        let r = outcomes@[k0].outcome->Ok_0;
                        &&& spec_lookup(self.assets@[i].targets@, old(self).target.key@) == Some(
                            TargetStateView {
                                hash: old(self).assets@[i].hash@,
                                id: r@.id,
                                local_path: r@.local_path,
                            },
                        )
                        &&& forall|k2: Seq<char>|
                            k2 != old(self).target.key@ ==> spec_lookup(
                                self.assets@[i].targets@,
                                k2,
                            ) == spec_lookup(old(self).assets@[i].targets@, k2)
                    },
                forall|i: int|
                    0 <= i < old(self).assets@.len() && !spec_has_ok_outcome(
                        outcomes@.take(k as int),
                        i,
                    ) ==> self.assets@[i] == old(self).assets@[i],
                forall|i: int|
                    0 <= i < old(self).assets@.len() ==> {
                        &&& (#[trigger] self.assets@[i]).ident == old(self).assets@[i].ident
                        &&& self.assets@[i].hash == old(self).assets@[i].hash
                        &&& self.assets@[i].path == old(self).assets@[i].path
                        &&& self.assets@[i].contents == old(self).assets@[i].contents
                    },
                self.errors@.len() == old(self).errors@.len() + err_count,
                self.config == old(self).config,
                self.target == old(self).target,
                self.prev_state == old(self).prev_state,
                self.force_sync == old(self).force_sync,
        {
            let ghost assets_before = self.assets@;
            let idx = outcomes[k].index;
            match &outcomes[k].outcome {
                Ok(r) => {
                    let hash = self.assets[idx].hash.clone();
                    let lp = match &r.local_path {
                        Some(p) => Some(p.clone()),
                        None => None,
                    };
                    let ts = TargetState::new(hash, r.id.clone(), lp);
                    let key = self.target.key.clone();
                    let a = &mut self.assets[idx];
                    a.targets.insert(key, ts);
                    ok_count = ok_count + 1;
                },
                Err(msg) => {
                    self.errors.push(msg.clone());
                    err_count = err_count + 1;
                },
            }
            proof {
                assert(outcomes@.take(k + 1).drop_last() =~= outcomes@.take(k as int));
                assert(outcomes@.take(k + 1).last() == outcomes@[k as int]);
                assert forall|i: int|
                    0 <= i < old(self).assets@.len() && !spec_has_ok_outcome(
                        outcomes@.take(k + 1),
                        i,
                    ) implies self.assets@[i] == old(self).assets@[i] by {
                    assert forall|k0: int|
                        0 <= k0 < k && (#[trigger] outcomes@.take(k as int)[k0]).index == i
                            && outcomes@.take(k as int)[k0].outcome is Ok implies false by {
                        assert(outcomes@.take(k + 1)[k0].index == i);
                    }
                    if outcomes@[k as int].outcome is Ok {
                        assert(outcomes@.take(k + 1)[k as int].index == outcomes@[k as int].index);
                        assert(i != outcomes@[k as int].index);
                        assert(self.assets@[i] == assets_before[i]);
                    }
                }
                assert forall|k0: int|
                    0 <= k0 < k + 1 && (#[trigger] outcomes@[k0]).outcome is Ok implies {
                    let i = outcomes@[k0].index as int;
                    let r = outcomes@[k0].outcome->Ok_0;
                    &&& spec_lookup(self.assets@[i].targets@, old(self).target.key@) == Some(
                        TargetStateView {
                            hash: old(self).assets@[i].hash@,
                            id: r@.id,
                            local_path: r@.local_path,
                        },
                    )
                    &&& forall|k2: Seq<char>|
                        k2 != old(self).target.key@ ==> spec_lookup(self.assets@[i].targets@, k2)
                            == spec_lookup(old(self).assets@[i].targets@, k2)
                } by {
                    if k0 < k {
                        assert(outcomes@[k0].index < outcomes@[k as int].index);
                        assert(self.assets@[outcomes@[k0].index as int]
                            == assets_before[outcomes@[k0].index as int]);
                    }
                }
            }
        }
        proof {
            assert(outcomes@.take(m as int) =~= outcomes@);
        }
        (ok_count, err_count)
    }

    /// Reduces the session's assets back into a persisted snapshot: one
    /// entry per asset, holding exactly its per-target records, in the
    /// session's ident order.
    pub fn write_state(&self) -> (st: State)
        requires
            self.wf(),
        ensures
            st.deep_wf(),
            st@.len() == self.assets@.len(),
            forall|i: int|
                0 <= i < st@.len() ==> (#[trigger] st@[i]).0 == self.assets@[i].ident@ && st@[i].1
                    == self.assets@[i].targets@,
            forall|i: int|
                0 <= i < self.assets@.len() ==> spec_lookup(
                    st@,
                    (#[trigger] self.assets@[i]).ident@,
                ) == Some(self.assets@[i].targets@),
    {
        let n = self.assets.len();
        let mut assets: Vec<(AssetIdent, AssetState)> = Vec::new();
        for i in 0..n
            invariant
                n == self.assets@.len(),
                assets@.len() == i,
                forall|j: int|
                    0 <= j < i ==> (#[trigger] assets@[j]).0@ == self.assets@[j].ident@
                        && assets@[j].1@ == self.assets@[j].targets@,
        {
            let a = &self.assets[i];
            assets.push((a.ident.duplicate(), AssetState { targets: a.targets.duplicate() }));
        }
        let st = State { assets };
        proof {
            assert forall|i: int, j: int| 0 <= i < j < st@.len() implies st@[i].0 != st@[j].0 by {
                assert(spec_lex_lt(self.assets@[i].ident@, self.assets@[j].ident@));
                if st@[i].0 == st@[j].0 {
                    lemma_lex_irrefl(self.assets@[i].ident@);
                }
            }
            assert forall|i: int| 0 <= i < st@.len() implies spec_unique_keys(
                #[trigger] st@[i].1,
            ) by {
                assert(self.assets@[i].wf());
            }
            assert forall|i: int| 0 <= i < self.assets@.len() implies spec_lookup(
                st@,
                (#[trigger] self.assets@[i]).ident@,
            ) == Some(self.assets@[i].targets@) by {
                lemma_lookup_at_index(st@, i);
            }
        }
        st
    }

    /// The pass summary: everything discovered but neither synced nor
    /// failed was skipped.
    pub fn summary_counts(&self, ok_count: usize, err_count: usize) -> (skipped: usize)
        requires
            ok_count + err_count <= self.assets@.len(),
        ensures
            skipped == self.assets@.len() - ok_count - err_count,
    {
        self.assets.len() - ok_count - err_count
    }
}

/// The creator context a remote upload runs under.
#[derive(Clone, Debug)]
pub enum RemoteCreator {
    User { user_id: String },
    Group { group_id: String },
}

/// Decides whether a remote sync may start: it needs an API key and a
/// creator — a user id, or failing that a group id. Exactly the missing
/// credential is reported.
pub fn check_remote_credentials(
    has_api_key: bool,
    user_id: Option<String>,
    group_id: Option<String>,
) -> (r: Result<RemoteCreator, SyncError>)
    ensures
        match r {
            Ok(c) => {
                &&& has_api_key
                &&& match (user_id, group_id) {
                    (Some(u), _) => c matches RemoteCreator::User { user_id: cu } && cu == u,
                    (None, Some(g)) => c matches RemoteCreator::Group { group_id: cg } && cg == g,
                    (None, None) => false,
                }
            },
            Err(e) => if !has_api_key {
                e matches SyncError::MissingApiKey
            } else {
                e matches SyncError::MissingCreator && user_id is None && group_id is None
            },
        },
{
    if !has_api_key {
        return Err(SyncError::MissingApiKey);
    }
    match (user_id, group_id) {
        (Some(u), _) => Ok(RemoteCreator::User { user_id: u }),
        (None, Some(g)) => Ok(RemoteCreator::Group { group_id: g }),
        (None, None) => Err(SyncError::MissingCreator),
    }
}

/// The pass's overall result: success exactly when no soft error was
/// collected.
pub fn finish_sync(error_count: usize) -> (r: Result<(), SyncError>)
    ensures
        match r {
            Ok(()) => error_count == 0,
            Err(e) => error_count > 0 && (e matches SyncError::HadErrors { error_count: n } && n
                == error_count),
        },
{
    if error_count == 0 {
        Ok(())
    } else {
        Err(SyncError::HadErrors { error_count })
    }
}

/// The path of a locally synced copy inside the per-project content
/// subfolder, as engine references resolve it.
pub open spec fn spec_content_path(project: Seq<char>, ident: Seq<char>, cb: Seq<char>) -> Seq<
    char,
> {
    ".runway/"@ + project + seq!['/'] + spec_cache_busted(ident, cb)
}

/// The engine reference recorded for a locally synced asset.
pub open spec fn spec_local_asset_id(project: Seq<char>, ident: Seq<char>, cb: Seq<char>) -> Seq<
    char,
> {
    "rbxasset://"@ + spec_replace_slashes(spec_content_path(project, ident, cb))
}

/// The local sync strategy: writes each asset under the project's local
/// content folder with a cache-busting name and records where.
#[derive(Debug)]
pub struct LocalSyncStrategy {
    pub local_path: String,
}

impl LocalSyncStrategy {
    pub fn new(local_path: String) -> (r: LocalSyncStrategy)
        ensures
            r.local_path@ == local_path@,
    {
        LocalSyncStrategy { local_path }
    }

    /// The three paths of one asset's local sync: the content path its
    /// reference names, the file path to write, and the reference id to
    /// record. `timestamp` is the cache-busting token — the current time
    /// in seconds, rendered by the driver.
    pub fn local_sync_item(&self, project_name: &str, ident: &AssetIdent, timestamp: &str) -> (r: (
        String,
        String,
        String,
    ))
        ensures
            r.0@ == spec_content_path(project_name@, ident@, timestamp@),
            r.1@ == spec_joined(self.local_path@, spec_cache_busted(ident@, timestamp@)),
            r.2@ == spec_local_asset_id(project_name@, ident@, timestamp@),
    {
        let filename = ident.with_cache_bust(timestamp);
        let mut content_path = ".runway/".to_owned();
        content_path.append(project_name);
        crate::strutil::push_char(&mut content_path, '/');
        content_path.append(filename.as_str());
        proof {
            assert(content_path@ =~= spec_content_path(project_name@, ident@, timestamp@));
        }
        let mut file_path = filename;
        crate::config::make_absolute(&mut file_path, self.local_path.as_str());
        let norm = replace_slashes(content_path.as_str());
        let mut id = "rbxasset://".to_owned();
        id.append(norm.as_str());
        proof {
            assert(id@ =~= spec_local_asset_id(project_name@, ident@, timestamp@));
        }
        (content_path, file_path, id)
    }
}

/// Logs and collects a soft error.
pub fn raise_error(error: String, errors: &mut Vec<String>)
    ensures
        final(errors)@ == old(errors)@.push(error),
{
    errors.push(error);
}

/// Idempotence: an asset whose pass left a target record carrying its
/// current content hash — and, where local artifacts are checked, an
/// artifact path that still exists — does not need syncing against the
/// state that pass wrote.
pub proof fn lemma_sync_idempotent(
    st: Seq<(Seq<char>, Seq<(Seq<char>, TargetStateView)>)>,
    ident: Seq<char>,
    hash: Seq<char>,
    target_key: Seq<char>,
    check_local_path: bool,
    local_path_exists: bool,
)
    requires
        match spec_prev_target(st, ident, target_key) {
            Some(p) => p.hash == hash && (check_local_path ==> p.local_path is Some
                && local_path_exists),
            None => false,
        },
    ensures
        !spec_needs_sync(
            false,
            hash,
            spec_prev_target(st, ident, target_key),
            check_local_path,
            local_path_exists,
        ),
{
}

/// Idempotence at the pass level: an asset whose per-target records — as
/// the pass leaves them and `write_state` persists them — carry this
/// target with the asset's current hash (and, where local artifacts are
/// checked, an artifact that still exists) does not need syncing against
/// the state the pass wrote. With unchanged files, a second run plans
/// nothing.
pub proof fn lemma_pass_idempotent(
    session: SyncSession,
    st: State,
    i: int,
    check_local_path: bool,
    local_path_exists: bool,
)
    requires
        session.wf(),
        st@.len() == session.assets@.len(),
        forall|j: int|
            0 <= j < st@.len() ==> (#[trigger] st@[j]).0 == session.assets@[j].ident@ && st@[j].1
                == session.assets@[j].targets@,
        0 <= i < session.assets@.len(),
        match spec_lookup(session.assets@[i].targets@, session.target.key@) {
            Some(p) => p.hash == session.assets@[i].hash@ && (check_local_path ==> p.local_path
                is Some && local_path_exists),
            None => false,
        },
    ensures
        !spec_asset_needs_sync(
            false,
            session.assets@[i],
            st@,
            session.target.key@,
            check_local_path,
            local_path_exists,
        ),
{
    assert(spec_unique_keys(st@)) by {
        assert forall|a: int, b: int| 0 <= a < b < st@.len() implies st@[a].0 != st@[b].0 by {
            assert(spec_lex_lt(session.assets@[a].ident@, session.assets@[b].ident@));
            if st@[a].0 == st@[b].0 {
                lemma_lex_irrefl(session.assets@[a].ident@);
            }
        }
    }
    lemma_lookup_at_index(st@, i);
    assert(spec_lookup(st@, session.assets@[i].ident@) == Some(session.assets@[i].targets@));
}

/// Change detection, first half: an asset whose recorded hash differs
/// from its current one needs syncing.
pub proof fn lemma_changed_hash_syncs(
    p: TargetStateView,
    hash: Seq<char>,
    check_local_path: bool,
    local_path_exists: bool,
)
    requires
        p.hash != hash,
    ensures
        spec_needs_sync(false, hash, Some(p), check_local_path, local_path_exists),
{
}

/// Change detection, second half: an asset whose recorded hash matches —
/// with its artifact intact where that is checked — is skipped.
pub proof fn lemma_unchanged_skips(
    p: TargetStateView,
    hash: Seq<char>,
    check_local_path: bool,
    local_path_exists: bool,
)
    requires
        p.hash == hash,
        check_local_path ==> p.local_path is Some && local_path_exists,
    ensures
        !spec_needs_sync(false, hash, Some(p), check_local_path, local_path_exists),
{
}

/// Force flag: with force set, every asset needs syncing, whatever its
/// records say.
pub proof fn lemma_force_syncs(
    hash: Seq<char>,
    prev: Option<TargetStateView>,
    check_local_path: bool,
    local_path_exists: bool,
)
    ensures
        spec_needs_sync(true, hash, prev, check_local_path, local_path_exists),
{
}

/// Local-artifact recovery: an asset whose recorded hash matches but
/// whose recorded artifact is absent — no path recorded, or the file gone
/// — needs syncing when local artifacts are checked.
pub proof fn lemma_lost_artifact_resyncs(
    p: TargetStateView,
    hash: Seq<char>,
    local_path_exists: bool,
)
    requires
        p.local_path is None || !local_path_exists,
    ensures
        spec_needs_sync(false, hash, Some(p), true, local_path_exists),
{
}

} // verus!

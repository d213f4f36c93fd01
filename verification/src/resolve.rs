//! Dependency resolution: alias validation, dependency lookup by name or
//! alias, and a dependency-respecting total order over the entries.

use vstd::prelude::*;

use crate::config::{ConfigParser, entry_models};
use crate::entry::{Entry, EntryModel, spec_matches_name};
use crate::error::{ErrorModel, PollenError};

verus! {

/// Entry `i` has an alias equal to entry `j`'s name.
pub open spec fn spec_alias_conflict_at(s: Seq<EntryModel>, i: int, j: int) -> bool {
    &&& 0 <= i < s.len()
    &&& 0 <= j < s.len()
    &&& s[i].alias_as is Some
    &&& s[i].alias_as->0 == s[j].name
}

/// Two distinct entries share one alias.
pub open spec fn spec_dup_alias_at(s: Seq<EntryModel>, i: int, j: int) -> bool {
    &&& 0 <= i < j < s.len()
    &&& s[i].alias_as is Some
    &&& s[i].alias_as == s[j].alias_as
}

/// No alias equals an entry name, and no two entries share an alias.
pub open spec fn spec_aliases_ok(s: Seq<EntryModel>) -> bool {
    &&& !(exists|i: int, j: int| spec_alias_conflict_at(s, i, j))
    &&& !(exists|i: int, j: int| spec_dup_alias_at(s, i, j))
}

/// The token resolves to entry `k`: `k` matches, and no earlier entry does.
pub open spec fn spec_resolves_to(s: Seq<EntryModel>, token: Seq<char>, k: int) -> bool {
    &&& 0 <= k < s.len()
    &&& spec_matches_name(s[k], token)
    &&& forall|j: int| 0 <= j < k ==> !spec_matches_name(#[trigger] s[j], token)
}

/// Some entry matches the token.
pub open spec fn spec_resolvable(s: Seq<EntryModel>, token: Seq<char>) -> bool {
    exists|k: int| 0 <= k < s.len() && spec_matches_name(#[trigger] s[k], token)
}

/// Every dependency token of every entry resolves to some entry.
pub open spec fn spec_all_deps_resolvable(s: Seq<EntryModel>) -> bool {
    forall|i: int, d: int|
        0 <= i < s.len() && 0 <= d < (#[trigger] s[i].depends_on).len() ==> spec_resolvable(
            s,
            #[trigger] s[i].depends_on[d],
        )
}

/// Some entry before position `i` matches the token.
pub open spec fn spec_match_before(out: Seq<EntryModel>, i: int, token: Seq<char>) -> bool {
    exists|j: int| 0 <= j < i && spec_matches_name(#[trigger] out[j], token)
}

/// Each entry is preceded by a match for each of its dependency tokens.
pub open spec fn spec_deps_before(out: Seq<EntryModel>) -> bool {
    forall|i: int, d: int|
        0 <= i < out.len() && 0 <= d < out[i].depends_on.len() ==> #[trigger] spec_match_before(
            out,
            i,
            out[i].depends_on[d],
        )
}

/// Some position of `p` holds the index `i`.
pub open spec fn spec_index_used(p: Seq<int>, i: int) -> bool {
    exists|k: int| 0 <= k < p.len() && #[trigger] p[k] == i
}

/// `out` is `s` reordered by the index list `p`: same length, every index
/// valid and used at most once, and every index used.
pub open spec fn spec_perm_of(p: Seq<int>, out: Seq<EntryModel>, s: Seq<EntryModel>) -> bool {
    &&& p.len() == s.len()
    &&& out.len() == s.len()
    &&& forall|k: int| 0 <= k < p.len() ==> 0 <= #[trigger] p[k] < s.len() && out[k] == s[p[k]]
    &&& forall|k1: int, k2: int| 0 <= k1 < k2 < p.len() ==> p[k1] != p[k2]
    &&& forall|i: int| 0 <= i < s.len() ==> #[trigger] spec_index_used(p, i)
}

/// No two entries share a name.
pub open spec fn spec_names_distinct(s: Seq<EntryModel>) -> bool {
    forall|i: int, j: int| 0 <= i < j < s.len() ==> (#[trigger] s[i]).name != (#[trigger] s[j]).name
}

impl ConfigParser {
    /// The first entry the given name or alias refers to, if any.
    pub fn find_entry_by_name<'a>(&self, entries: &'a Vec<Entry>, name: &str) -> (r: Option<
        &'a Entry,
    >)
        ensures
            match r {
                Some(e) => exists|k: int|
                    spec_resolves_to(entry_models(entries@), name@, k) && *e == entries@[k],
                None => !spec_resolvable(entry_models(entries@), name@),
            },
    {
        let n: usize = entries.len();
        let mut i: usize = 0;
        while i < n
            invariant
                i <= n,
                n == entries@.len(),
                forall|j: int|
                    0 <= j < i ==> !spec_matches_name(
                        #[trigger] entry_models(entries@)[j],
                        name@,
                    ),
            decreases n - i,
        {
            if entries[i].matches_name(name) {
                proof {
                    assert(spec_resolves_to(entry_models(entries@), name@, i as int));
                }
                return Some(&entries[i]);
            }
            i = i + 1;
        }
        None
    }

    /// Resolve a dependency token (a name or an alias) to the canonical
    /// name of the entry it refers to.
    pub fn resolve_dependency_name(&self, entries: &Vec<Entry>, dep_name: &str) -> (r: Option<
        String,
    >)
        ensures
            match r {
                Some(nm) => exists|k: int|
                    spec_resolves_to(entry_models(entries@), dep_name@, k) && nm@ == entry_models(
                        entries@,
                    )[k].name,
                None => !spec_resolvable(entry_models(entries@), dep_name@),
            },
    {
        match self.find_entry_by_name(entries, dep_name) {
            Some(e) => Some(e.name.clone()),
            None => None,
        }
    }

    /// All aliases with the paths of their entries, in entry order.
    pub fn list_aliases(&self, entries: &Vec<Entry>) -> (r: Vec<(String, String)>)
        ensures
            r.deep_view() == spec_alias_list(entry_models(entries@)),
    {
        let n: usize = entries.len();
        let mut out: Vec<(String, String)> = Vec::new();
        let mut i: usize = 0;
        let ghost s = entry_models(entries@);
        proof {
            assert(s.subrange(0, n as int) =~= s);
            assert(out.deep_view() + spec_alias_list(s.subrange(0, n as int)) =~= spec_alias_list(
                s,
            ));
        }
        while i < n
            invariant
                i <= n,
                n == entries@.len(),
                s == entry_models(entries@),
                spec_alias_list(s) == out.deep_view() + spec_alias_list(
                    s.subrange(i as int, n as int),
                ),
            decreases n - i,
        {
            let ghost rem = s.subrange(i as int, n as int);
            let ghost done = out.deep_view();
            proof {
                assert(rem[0] == s[i as int]);
                assert(rem.subrange(1, rem.len() as int) =~= s.subrange(i + 1, n as int));
            }
            match &entries[i].alias_as {
                Some(a) => {
                    out.push((a.clone(), entries[i].path.clone()));
                    proof {
                        assert(out.deep_view() =~= done.push((a@, entries@[i as int].path@)));
                        assert(done.push((a@, entries@[i as int].path@)) + spec_alias_list(
                            s.subrange(i + 1, n as int),
                        ) =~= done + spec_alias_list(rem));
                    }
                },
                None => {},
            }
            i = i + 1;
        }
        proof {
            assert(s.subrange(n as int, n as int) =~= Seq::<EntryModel>::empty());
            assert(out.deep_view() + Seq::<(Seq<char>, Seq<char>)>::empty() =~= out.deep_view());
        }
        out
    }

    /// Validate that no alias equals an entry name and no alias is shared.
    pub fn validate_aliases(&self, entries: &Vec<Entry>) -> (r: Result<(), PollenError>)
        ensures
            r is Ok <==> spec_aliases_ok(entry_models(entries@)),
            match r {
                Ok(()) => true,
                Err(e) => match e@ {
                    ErrorModel::AliasConflict(a) => exists|i: int, j: int|
                        spec_alias_conflict_at(entry_models(entries@), i, j) && entry_models(
                            entries@,
                        )[i].alias_as == Some(a),
                    ErrorModel::DuplicateAlias(a) => exists|i: int, j: int|
                        spec_dup_alias_at(entry_models(entries@), i, j) && entry_models(
                            entries@,
                        )[j].alias_as == Some(a),
                    _ => false,
                },
            },
    {
        let ghost s = entry_models(entries@);
        let n: usize = entries.len();
        let mut i: usize = 0;
        while i < n
            invariant
                i <= n,
                n == entries@.len(),
                s == entry_models(entries@),
                forall|i2: int, j2: int|
                    0 <= i2 < i && 0 <= j2 < n ==> !spec_alias_conflict_at(s, i2, j2),
                forall|i2: int, j2: int| 0 <= i2 < j2 < i ==> !spec_dup_alias_at(s, i2, j2),
            decreases n - i,
        {
            match &entries[i].alias_as {
                Some(a) => {
                    let mut j: usize = 0;
                    while j < n
                        invariant
                            j <= n,
                            n == entries@.len(),
                            s == entry_models(entries@),
                            i < n,
                            entries@[i as int].alias_as is Some,
                            a == entries@[i as int].alias_as->0,
                            forall|j2: int| 0 <= j2 < j ==> !spec_alias_conflict_at(s, i as int, j2),
                        decreases n - j,
                    {
                        if entries[j].name == *a {
                            proof {
                                assert(spec_alias_conflict_at(s, i as int, j as int));
                            }
                            return Err(PollenError::AliasConflict(a.clone()));
                        }
                        j = j + 1;
                    }
                    let mut j: usize = 0;
                    while j < i
                        invariant
                            j <= i < n,
                            n == entries@.len(),
                            s == entry_models(entries@),
                            entries@[i as int].alias_as is Some,
                            a == entries@[i as int].alias_as->0,
                            forall|j2: int| 0 <= j2 < j ==> !spec_dup_alias_at(s, j2, i as int),
                        decreases i - j,
                    {
                        match &entries[j].alias_as {
                            Some(b) => {
                                if *b == *a {
                                    proof {
                                        assert(spec_dup_alias_at(s, j as int, i as int));
                                    }
                                    return Err(PollenError::DuplicateAlias(a.clone()));
                                }
                            },
                            None => {},
                        }
                        j = j + 1;
                    }
                },
                None => {
                    proof {
                        assert(forall|j2: int|
                            0 <= j2 < n ==> !spec_alias_conflict_at(s, i as int, j2));
                        assert(forall|j2: int| 0 <= j2 < i ==> !spec_dup_alias_at(s, j2, i as int));
                    }
                },
            }
            i = i + 1;
        }
        Ok(())
    }
}

/// The aliases of a list of entries, each with its entry's path, in order.
pub open spec fn spec_alias_list(s: Seq<EntryModel>) -> Seq<(Seq<char>, Seq<char>)>
    decreases s.len(),
{
    if s.len() == 0 {
        Seq::empty()
    } else {
        let rest = spec_alias_list(s.subrange(1, s.len() as int));
        match s[0].alias_as {
            Some(a) => seq![(a, s[0].path)] + rest,
            None => rest,
        }
    }
}

/// An exact copy of an entry.
pub fn clone_entry(e: &Entry) -> (r: Entry)
    ensures
        r@ == e@,
{
    let mut deps: Vec<String> = Vec::new();
    let n: usize = e.depends_on.len();
    let mut i: usize = 0;
    while i < n
        invariant
            i <= n,
            n == e.depends_on@.len(),
            deps@.len() == i,
            forall|j: int| 0 <= j < i ==> #[trigger] deps@[j] == e.depends_on@[j],
        decreases n - i,
    {
        deps.push(e.depends_on[i].clone());
        i = i + 1;
    }
    let r = Entry {
        name: e.name.clone(),
        path: e.path.clone(),
        run_before: match &e.run_before {
            Some(s) => Some(s.clone()),
            None => None,
        },
        run_after: match &e.run_after {
            Some(s) => Some(s.clone()),
            None => None,
        },
        depends_on: deps,
        alias_as: match &e.alias_as {
            Some(s) => Some(s.clone()),
            None => None,
        },
    };
    proof {
        assert(r@.depends_on =~= e@.depends_on);
        assert(r@ =~= e@);
    }
    r
}


/// How many positions of a boolean sequence are set.
pub open spec fn spec_count_true(s: Seq<bool>) -> nat
    decreases s.len(),
{
    if s.len() == 0 {
        0
    } else {
        spec_count_true(s.drop_last()) + if s.last() {
            1nat
        } else {
            0nat
        }
    }
}

proof fn lemma_count_true_update(s: Seq<bool>, i: int)
    requires
        0 <= i < s.len(),
        !s[i],
    ensures
        spec_count_true(s.update(i, true)) == spec_count_true(s) + 1,
    decreases s.len(),
{
    let t = s.update(i, true);
    if i == s.len() - 1 {
        assert(t.drop_last() =~= s.drop_last());
    } else {
        lemma_count_true_update(s.drop_last(), i);
        assert(t.drop_last() =~= s.drop_last().update(i, true));
        assert(t.last() == s.last());
    }
}

proof fn lemma_count_true_bound(s: Seq<bool>)
    ensures
        spec_count_true(s) <= s.len(),
    decreases s.len(),
{
    if s.len() > 0 {
        lemma_count_true_bound(s.drop_last());
    }
}

proof fn lemma_count_true_all_false(s: Seq<bool>)
    requires
        forall|j: int| 0 <= j < s.len() ==> !s[j],
    ensures
        spec_count_true(s) == 0,
    decreases s.len(),
{
    if s.len() > 0 {
        lemma_count_true_all_false(s.drop_last());
    }
}

proof fn lemma_count_true_all_true(s: Seq<bool>)
    requires
        forall|j: int| 0 <= j < s.len() ==> s[j],
    ensures
        spec_count_true(s) == s.len(),
    decreases s.len(),
{
    if s.len() > 0 {
        lemma_count_true_all_true(s.drop_last());
    }
}

/// The names of the entries from position `i` on that `placed` does not
/// hold, in input order.
pub open spec fn spec_unplaced_from(s: Seq<EntryModel>, placed: Seq<int>, i: int) -> Seq<Seq<char>>
    decreases s.len() - i,
{
    if !(0 <= i < s.len()) {
        Seq::empty()
    } else if spec_index_used(placed, i) {
        spec_unplaced_from(s, placed, i + 1)
    } else {
        seq![s[i].name] + spec_unplaced_from(s, placed, i + 1)
    }
}

proof fn lemma_unplaced_contains(s: Seq<EntryModel>, placed: Seq<int>, lo: int, i: int)
    requires
        0 <= lo <= i < s.len(),
        !spec_index_used(placed, i),
    ensures
        spec_unplaced_from(s, placed, lo).contains(s[i].name),
    decreases i - lo,
{
    if lo == i {
        assert(spec_unplaced_from(s, placed, lo)[0] == s[i].name);
    } else {
        lemma_unplaced_contains(s, placed, lo + 1, i);
        if spec_index_used(placed, lo) {
        } else {
            let rest = spec_unplaced_from(s, placed, lo + 1);
            let k = choose|k: int| 0 <= k < rest.len() && rest[k] == s[i].name;
            assert(spec_unplaced_from(s, placed, lo)[k + 1] == s[i].name);
        }
    }
}

/// Some entry placed before position `k` matches the token.
pub open spec fn spec_placed_before(s: Seq<EntryModel>, placed: Seq<int>, k: int, token: Seq<char>) -> bool {
    exists|k2: int| 0 <= k2 < k && spec_matches_name(#[trigger] s[placed[k2]], token)
}

/// Every dependency of every placed entry is matched by an entry placed
/// strictly earlier.
pub open spec fn spec_placed_deps_ordered(s: Seq<EntryModel>, placed: Seq<int>) -> bool {
    forall|k: int, d: int|
        0 <= k < placed.len() && 0 <= placed[k] < s.len() && 0 <= d
            < s[placed[k]].depends_on.len() ==> #[trigger] spec_placed_before(
            s,
            placed,
            k,
            s[placed[k]].depends_on[d],
        )
}

/// Entry `i` waits on a dependency whose entry `placed` does not hold.
pub open spec fn spec_blocked_dep(s: Seq<EntryModel>, placed: Seq<int>, i: int) -> bool {
    exists|d: int, m: int|
        0 <= d < s[i].depends_on.len() && #[trigger] spec_resolves_to(s, s[i].depends_on[d], m)
            && !spec_index_used(placed, m)
}

/// A stalled ordering attempt: `placed` is a valid dependency-respecting
/// partial order, `names` are the names of the entries left over, and every
/// leftover entry waits on another leftover entry — the witness that the
/// leftovers are exactly the nodes in or reachable only through a cycle.
pub open spec fn spec_stuck(s: Seq<EntryModel>, placed: Seq<int>, names: Seq<Seq<char>>) -> bool {
    &&& forall|k: int| 0 <= k < placed.len() ==> 0 <= #[trigger] placed[k] < s.len()
    &&& forall|k1: int, k2: int| 0 <= k1 < k2 < placed.len() ==> placed[k1] != placed[k2]
    &&& spec_placed_deps_ordered(s, placed)
    &&& names == spec_unplaced_from(s, placed, 0)
    &&& names.len() > 0
    &&& forall|i: int|
        0 <= i < s.len() && !spec_index_used(placed, i) ==> #[trigger] spec_blocked_dep(
            s,
            placed,
            i,
        )
}

/// The first entry matching a token, by position.
fn find_match_index(entries: &Vec<Entry>, token: &str) -> (r: Option<usize>)
    ensures
        match r {
            Some(m) => spec_resolves_to(entry_models(entries@), token@, m as int),
            None => !spec_resolvable(entry_models(entries@), token@),
        },
{
    let n: usize = entries.len();
    let mut i: usize = 0;
    while i < n
        invariant
            i <= n,
            n == entries@.len(),
            forall|j: int|
                0 <= j < i ==> !spec_matches_name(#[trigger] entry_models(entries@)[j], token@),
        decreases n - i,
    {
        if entries[i].matches_name(token) {
            return Some(i);
        }
        i = i + 1;
    }
    None
}

/// Whether every index of `row` is already marked done.
#[verifier::loop_isolation(false)]
fn all_deps_done(row: &Vec<usize>, done: &Vec<bool>) -> (r: bool)
    requires
        forall|d: int| 0 <= d < row@.len() ==> #[trigger] row@[d] < done@.len(),
    ensures
        r <==> forall|d: int| 0 <= d < row@.len() ==> done@[#[trigger] row@[d] as int],
{
    let m: usize = row.len();
    let mut d: usize = 0;
    while d < m
        invariant
            d <= m,
            forall|d2: int| 0 <= d2 < d ==> done@[#[trigger] row@[d2] as int],
        decreases m - d,
    {
        if !done[row[d]] {
            return false;
        }
        d = d + 1;
    }
    true
}


/// The dependency tokens of every entry, resolved to entry indices.
pub open spec fn spec_deps_idx_ok(s: Seq<EntryModel>, deps_idx: Seq<Vec<usize>>) -> bool {
    &&& deps_idx.len() == s.len()
    &&& forall|i: int| 0 <= i < s.len() ==> (#[trigger] deps_idx[i])@.len() == s[i].depends_on.len()
    &&& forall|i: int, d: int|
        0 <= i < s.len() && 0 <= d < deps_idx[i]@.len() ==> spec_resolves_to(
            s,
            s[i].depends_on[d],
            #[trigger] deps_idx[i]@[d] as int,
        )
}

/// The state of a partially built order: `done` marks the placed entries,
/// `placed` lists their indices in placement order, and `outm` holds their
/// models; every placed entry's dependencies were placed before it.
pub open spec fn spec_kahn_state(
    s: Seq<EntryModel>,
    done: Seq<bool>,
    placed: Seq<int>,
    outm: Seq<EntryModel>,
) -> bool {
    &&& done.len() == s.len()
    &&& placed.len() == outm.len()
    &&& placed.len() == spec_count_true(done)
    &&& placed.len() <= s.len()
    &&& forall|k: int| 0 <= k < placed.len() ==> 0 <= #[trigger] placed[k] < s.len()
    &&& forall|k: int| 0 <= k < placed.len() ==> outm[k] == s[#[trigger] placed[k]]
    &&& forall|k1: int, k2: int| 0 <= k1 < k2 < placed.len() ==> placed[k1] != placed[k2]
    &&& forall|i: int| 0 <= i < s.len() ==> ((#[trigger] done[i]) <==> spec_index_used(placed, i))
    &&& spec_placed_deps_ordered(s, placed)
}

/// Placing an entry whose dependencies are all placed preserves the state.
proof fn lemma_place_step(
    s: Seq<EntryModel>,
    deps_idx: Seq<Vec<usize>>,
    done: Seq<bool>,
    placed: Seq<int>,
    outm: Seq<EntryModel>,
    i: int,
)
    requires
        spec_deps_idx_ok(s, deps_idx),
        spec_kahn_state(s, done, placed, outm),
        0 <= i < s.len(),
        !done[i],
        forall|d: int| 0 <= d < deps_idx[i]@.len() ==> done[#[trigger] deps_idx[i]@[d] as int],
    ensures
        spec_kahn_state(s, done.update(i, true), placed.push(i), outm.push(s[i])),
{
    let done2 = done.update(i, true);
    let placed2 = placed.push(i);
    lemma_count_true_update(done, i);
    lemma_count_true_bound(done2);
    assert forall|i2: int| 0 <= i2 < s.len() implies ((#[trigger] done2[i2])
        <==> spec_index_used(placed2, i2)) by {
        if i2 == i {
            assert(placed2[placed2.len() - 1] == i);
        } else {
            if spec_index_used(placed, i2) {
                let k = choose|k: int| 0 <= k < placed.len() && placed[k] == i2;
                assert(placed2[k] == i2);
            }
            if spec_index_used(placed2, i2) {
                let k = choose|k: int| 0 <= k < placed2.len() && placed2[k] == i2;
                assert(0 <= k < placed.len());
                assert(placed[k] == i2);
            }
        }
    }
    assert forall|k: int, d: int|
        0 <= k < placed2.len() && 0 <= placed2[k] < s.len() && 0 <= d
            < s[placed2[k]].depends_on.len() implies spec_placed_before(
        s,
        placed2,
        k,
        s[placed2[k]].depends_on[d],
    ) by {
        let token = s[placed2[k]].depends_on[d];
        if k < placed2.len() - 1 {
            assert(placed2[k] == placed[k]);
            assert(spec_placed_before(s, placed, k, s[placed[k]].depends_on[d]));
            let k2 = choose|k2: int| 0 <= k2 < k && spec_matches_name(s[placed[k2]], token);
            assert(placed2[k2] == placed[k2]);
            assert(spec_matches_name(s[placed2[k2]], token));
        } else {
            assert(placed2[k] == i);
            let m = deps_idx[i]@[d] as int;
            assert(spec_resolves_to(s, s[i].depends_on[d], m));
            assert(done[m]);
            assert(spec_index_used(placed, m));
            let k2 = choose|k2: int| 0 <= k2 < placed.len() && placed[k2] == m;
            assert(placed2[k2] == m);
            assert(spec_matches_name(s[placed2[k2]], token));
        }
    }
}

/// When every entry is placed, the placement is a dependency-respecting
/// reordering of the whole input.
proof fn lemma_kahn_complete(
    s: Seq<EntryModel>,
    deps_idx: Seq<Vec<usize>>,
    done: Seq<bool>,
    placed: Seq<int>,
    outm: Seq<EntryModel>,
)
    requires
        spec_deps_idx_ok(s, deps_idx),
        spec_kahn_state(s, done, placed, outm),
        forall|i: int| 0 <= i < s.len() ==> #[trigger] spec_index_used(placed, i),
    ensures
        spec_perm_of(placed, outm, s),
        spec_deps_before(outm),
{
    assert forall|i2: int| 0 <= i2 < s.len() implies #[trigger] done[i2] by {}
    lemma_count_true_all_true(done);
    assert forall|k: int, d: int|
        0 <= k < outm.len() && 0 <= d < outm[k].depends_on.len() implies #[trigger] spec_match_before(
        outm,
        k,
        outm[k].depends_on[d],
    ) by {
        let idx = placed[k];
        assert(outm[k] == s[idx]);
        assert(spec_placed_before(s, placed, k, s[placed[k]].depends_on[d]));
        let token = outm[k].depends_on[d];
        let k2 = choose|k2: int| 0 <= k2 < k && spec_matches_name(s[placed[k2]], token);
        assert(outm[k2] == s[placed[k2]]);
        assert(spec_matches_name(outm[k2], token));
    }
}

/// A pass that places nothing witnesses that the leftovers all wait on
/// leftovers.
proof fn lemma_kahn_stuck(
    s: Seq<EntryModel>,
    deps_idx: Seq<Vec<usize>>,
    done: Seq<bool>,
    placed: Seq<int>,
    outm: Seq<EntryModel>,
    names: Seq<Seq<char>>,
)
    requires
        spec_deps_idx_ok(s, deps_idx),
        spec_kahn_state(s, done, placed, outm),
        forall|i2: int|
            0 <= i2 < s.len() && !(#[trigger] done[i2]) ==> exists|d: int|
                0 <= d < deps_idx[i2]@.len() && !done[#[trigger] deps_idx[i2]@[d] as int],
        names == spec_unplaced_from(s, placed, 0),
        names.len() > 0,
    ensures
        spec_stuck(s, placed, names),
{
    assert forall|i2: int|
        0 <= i2 < s.len() && !spec_index_used(placed, i2) implies #[trigger] spec_blocked_dep(
        s,
        placed,
        i2,
    ) by {
        assert(!done[i2]);
        let d = choose|d: int| 0 <= d < deps_idx[i2]@.len() && !done[deps_idx[i2]@[d] as int];
        let m = deps_idx[i2]@[d] as int;
        assert(spec_resolves_to(s, s[i2].depends_on[d], m));
        assert(!spec_index_used(placed, m));
    }
}

/// Place entries in input-order passes until nothing more can be placed.
/// Returns the placed entries in order, the mark-off flags, and the list of
/// placed indices; every unplaced entry waits on an unplaced dependency.
#[verifier::loop_isolation(false)]
fn kahn_order(entries: &Vec<Entry>, deps_idx: &Vec<Vec<usize>>) -> (r: (
    Vec<Entry>,
    Vec<bool>,
    Ghost<Seq<int>>,
))
    requires
        spec_deps_idx_ok(entry_models(entries@), deps_idx@),
    ensures
        spec_kahn_state(entry_models(entries@), r.1@, r.2@, entry_models(r.0@)),
        forall|i2: int|
            0 <= i2 < entries@.len() && !(#[trigger] r.1@[i2]) ==> exists|d: int|
                0 <= d < deps_idx@[i2]@.len() && !r.1@[#[trigger] deps_idx@[i2]@[d] as int],
{
    let ghost s = entry_models(entries@);
    let n: usize = entries.len();
    let mut done: Vec<bool> = Vec::new();
    let mut i: usize = 0;
    while i < n
        invariant
            i <= n,
            done@.len() == i,
            forall|j: int| 0 <= j < i ==> !(#[trigger] done@[j]),
        decreases n - i,
    {
        done.push(false);
        i = i + 1;
    }
    proof {
        lemma_count_true_all_false(done@);
    }
    let mut out: Vec<Entry> = Vec::new();
    let ghost mut placed: Seq<int> = Seq::empty();
    let mut progress = true;
    while progress
        invariant
            spec_kahn_state(s, done@, placed, entry_models(out@)),
            !progress ==> forall|i2: int|
                0 <= i2 < n && !(#[trigger] done@[i2]) ==> exists|d: int|
                    0 <= d < deps_idx@[i2]@.len() && !done@[#[trigger] deps_idx@[i2]@[d] as int],
        decreases n - placed.len() + (if progress { 1int } else { 0int }),
    {
        progress = false;
        let ghost snap = done@;
        let ghost placed_snap = placed;
        let mut i: usize = 0;
        while i < n
            invariant
                i <= n,
                spec_kahn_state(s, done@, placed, entry_models(out@)),
                !progress ==> done@ == snap && placed == placed_snap,
                progress ==> placed.len() > placed_snap.len(),
                placed.len() >= placed_snap.len(),
                forall|i2: int|
                    0 <= i2 < i && !progress && !(#[trigger] snap[i2]) ==> exists|d: int|
                        0 <= d < deps_idx@[i2]@.len() && !snap[#[trigger] deps_idx@[i2]@[d] as int],
            decreases n - i,
        {
            if !done[i] {
                proof {
                    assert forall|d: int| 0 <= d < deps_idx@[i as int]@.len() implies #[trigger] deps_idx@[i as int]@[d]
                        < done@.len() by {
                        assert(spec_resolves_to(
                            s,
                            s[i as int].depends_on[d],
                            deps_idx@[i as int]@[d] as int,
                        ));
                    }
                }
                if all_deps_done(&deps_idx[i], &done) {
                    let ghost done_before = done@;
                    let ghost out_before = out@;
                    out.push(clone_entry(&entries[i]));
                    done.set(i, true);
                    progress = true;
                    proof {
                        lemma_place_step(
                            s,
                            deps_idx@,
                            done_before,
                            placed,
                            entry_models(out_before),
                            i as int,
                        );
                        placed = placed.push(i as int);
                        assert(entry_models(out@) =~= entry_models(out_before).push(s[i as int]));
                    }
                }
            }
            i = i + 1;
        }
    }
    (out, done, Ghost(placed))
}

/// The names of the entries not yet marked done, in input order.
#[verifier::loop_isolation(false)]
fn unplaced_names(
    entries: &Vec<Entry>,
    done: &Vec<bool>,
    Ghost(placed): Ghost<Seq<int>>,
) -> (r: Vec<String>)
    requires
        done@.len() == entries@.len(),
        forall|i: int|
            0 <= i < entries@.len() ==> ((#[trigger] done@[i]) <==> spec_index_used(placed, i)),
    ensures
        r.deep_view() == spec_unplaced_from(entry_models(entries@), placed, 0),
{
    let ghost s = entry_models(entries@);
    let n: usize = entries.len();
    let mut remaining: Vec<String> = Vec::new();
    let mut i: usize = 0;
    proof {
        assert(spec_unplaced_from(s, placed, 0) == remaining.deep_view() + spec_unplaced_from(
            s,
            placed,
            0,
        ));
    }
    while i < n
        invariant
            i <= n,
            spec_unplaced_from(s, placed, 0) == remaining.deep_view() + spec_unplaced_from(
                s,
                placed,
                i as int,
            ),
        decreases n - i,
    {
        let ghost before = remaining.deep_view();
        if !done[i] {
            remaining.push(entries[i].name.clone());
            proof {
                assert(remaining.deep_view() =~= before.push(s[i as int].name));
                assert(spec_unplaced_from(s, placed, i as int) == seq![s[i as int].name]
                    + spec_unplaced_from(s, placed, i + 1));
                assert(before + (seq![s[i as int].name] + spec_unplaced_from(s, placed, i + 1))
                    =~= before.push(s[i as int].name) + spec_unplaced_from(s, placed, i + 1));
            }
        } else {
            proof {
                assert(spec_unplaced_from(s, placed, i as int) == spec_unplaced_from(
                    s,
                    placed,
                    i + 1,
                ));
            }
        }
        i = i + 1;
    }
    proof {
        assert(spec_unplaced_from(s, placed, n as int) =~= Seq::<Seq<char>>::empty());
        assert(remaining.deep_view() + Seq::<Seq<char>>::empty() =~= remaining.deep_view());
    }
    remaining
}

/// What resolution may return: a dependency-respecting reordering of the
/// input, or an error that really describes the input.
pub open spec fn spec_resolution_post(s: Seq<EntryModel>, r: Result<Vec<Entry>, PollenError>) -> bool {
    match r {
        Ok(out) => {
            &&& spec_aliases_ok(s)
            &&& spec_all_deps_resolvable(s)
            &&& spec_deps_before(entry_models(out@))
            &&& exists|p: Seq<int>| spec_perm_of(p, entry_models(out@), s)
        },
        Err(e) => {
            &&& (e@ is AliasConflict ==> exists|i: int, j: int|
                spec_alias_conflict_at(s, i, j) && s[i].alias_as == Some(e@->AliasConflict_0))
            &&& (e@ is DuplicateAlias ==> exists|i: int, j: int|
                spec_dup_alias_at(s, i, j) && s[j].alias_as == Some(e@->DuplicateAlias_0))
            &&& (e@ is MissingDependency ==> {
                &&& spec_aliases_ok(s)
                &&& exists|i: int, d: int|
                    0 <= i < s.len() && 0 <= d < s[i].depends_on.len() && s[i].name
                        == e@->MissingDependency_entry && (#[trigger] s[i].depends_on[d])
                        == e@->MissingDependency_token && !spec_resolvable(
                        s,
                        e@->MissingDependency_token,
                    )
            })
            &&& (e@ is CircularDependency ==> {
                &&& spec_aliases_ok(s)
                &&& spec_all_deps_resolvable(s)
                &&& exists|placed: Seq<int>| spec_stuck(s, placed, e@->CircularDependency_0)
            })
            &&& (e@ is AliasConflict || e@ is DuplicateAlias || e@ is MissingDependency
                || e@ is CircularDependency)
        },
    }
}

/// Package a stalled ordering attempt as a resolution result.
proof fn lemma_circular_post(s: Seq<EntryModel>, remaining: Vec<String>, placed: Seq<int>)
    requires
        spec_aliases_ok(s),
        spec_all_deps_resolvable(s),
        spec_stuck(s, placed, remaining.deep_view()),
    ensures
        spec_resolution_post(s, Err(PollenError::CircularDependency(remaining))),
{
    let e = PollenError::CircularDependency(remaining);
    assert(e@ is CircularDependency);
    assert(e@->CircularDependency_0 == remaining.deep_view());
    assert(exists|placed2: Seq<int>| spec_stuck(s, placed2, e@->CircularDependency_0));
    assert(!(e@ is AliasConflict));
    assert(!(e@ is DuplicateAlias));
    assert(!(e@ is MissingDependency));
}

impl ConfigParser {
    /// Resolve every dependency token of every entry to the index of the
    /// entry it refers to, failing on the first token that matches nothing.
    #[verifier::loop_isolation(false)]
    fn resolve_dep_indices(&self, entries: &Vec<Entry>) -> (r: Result<Vec<Vec<usize>>, PollenError>)
        ensures
            ({
                let s = entry_models(entries@);
                match r {
                    Ok(di) => spec_deps_idx_ok(s, di@) && spec_all_deps_resolvable(s),
                    Err(e) => !spec_all_deps_resolvable(s) && match e@ {
                        ErrorModel::MissingDependency { entry, token } => exists|i: int, d: int|
                            0 <= i < s.len() && 0 <= d < s[i].depends_on.len() && s[i].name == entry
                                && (#[trigger] s[i].depends_on[d]) == token && !spec_resolvable(
                                s,
                                token,
                            ),
                        _ => false,
                    },
                }
            }),
    {
        let ghost s = entry_models(entries@);
        let n: usize = entries.len();
        let mut deps_idx: Vec<Vec<usize>> = Vec::new();
        let mut i: usize = 0;
        while i < n
            invariant
                i <= n,
                deps_idx@.len() == i,
                forall|i2: int|
                    0 <= i2 < i ==> (#[trigger] deps_idx@[i2])@.len() == s[i2].depends_on.len(),
                forall|i2: int, d: int|
                    0 <= i2 < i && 0 <= d < deps_idx@[i2]@.len() ==> spec_resolves_to(
                        s,
                        s[i2].depends_on[d],
                        #[trigger] deps_idx@[i2]@[d] as int,
                    ),
            decreases n - i,
        {
            let m: usize = entries[i].depends_on.len();
            let mut row: Vec<usize> = Vec::new();
            let mut d: usize = 0;
            while d < m
                invariant
                    d <= m,
                    row@.len() == d,
                    forall|d2: int|
                        0 <= d2 < d ==> spec_resolves_to(
                            s,
                            s[i as int].depends_on[d2],
                            #[trigger] row@[d2] as int,
                        ),
                decreases m - d,
            {
                let token = &entries[i].depends_on[d];
                match find_match_index(entries, token.as_str()) {
                    Some(mi) => {
                        row.push(mi);
                    },
                    None => {
                        proof {
                            assert(s[i as int].depends_on[d as int] == entries@[i as int]
                                .depends_on.deep_view()[d as int]);
                            assert(!spec_resolvable(s, s[i as int].depends_on[d as int]));
                            assert(!spec_all_deps_resolvable(s));
                        }
                        return Err(PollenError::MissingDependency {
                            entry: entries[i].name.clone(),
                            token: token.clone(),
                        });
                    },
                }
                d = d + 1;
            }
            deps_idx.push(row);
            i = i + 1;
        }
        proof {
            assert forall|i2: int, d: int|
                0 <= i2 < s.len() && 0 <= d < (#[trigger] s[i2].depends_on).len() implies spec_resolvable(
                s,
                #[trigger] s[i2].depends_on[d],
            ) by {
                let m = deps_idx@[i2]@[d] as int;
                assert(spec_resolves_to(s, s[i2].depends_on[d], m));
            }
            assert(spec_deps_idx_ok(s, deps_idx@));
        }
        Ok(deps_idx)
    }

    /// Order the entries so that every dependency precedes its dependents,
    /// breaking ties by input order; validate aliases and dependency tokens
    /// on the way.  On success the result is a reordering of the input.  A
    /// cycle is a hard failure naming exactly the entries that could not be
    /// ordered.
    #[verifier::rlimit(100)]
    #[verifier::spinoff_prover]
    pub fn topological_sort(&self, entries: Vec<Entry>) -> (r: Result<Vec<Entry>, PollenError>)
        ensures
            spec_resolution_post(entry_models(entries@), r),
            (r is Err && (r->Err_0@ is AliasConflict || r->Err_0@ is DuplicateAlias))
                <==> !spec_aliases_ok(entry_models(entries@)),
            (r is Err && r->Err_0@ is MissingDependency) <==> (spec_aliases_ok(
                entry_models(entries@),
            ) && !spec_all_deps_resolvable(entry_models(entries@))),
    {
        let ghost s = entry_models(entries@);
        match self.validate_aliases(&entries) {
            Ok(()) => {},
            Err(e) => {
                proof {
                    assert(spec_resolution_post(s, Err::<Vec<Entry>, PollenError>(e)));
                }
                return Err(e);
            },
        }
        let deps_idx = match self.resolve_dep_indices(&entries) {
            Ok(di) => di,
            Err(e) => {
                proof {
                    assert(spec_resolution_post(s, Err::<Vec<Entry>, PollenError>(e)));
                }
                return Err(e);
            },
        };
        let (out, done, placed_g) = kahn_order(&entries, &deps_idx);
        let ghost placed = placed_g@;
        let remaining = unplaced_names(&entries, &done, Ghost(placed));
        if remaining.is_empty() {
            proof {
                assert(remaining.deep_view().len() == 0);
                assert forall|i2: int| 0 <= i2 < s.len() implies #[trigger] spec_index_used(
                    placed,
                    i2,
                ) by {
                    if !spec_index_used(placed, i2) {
                        lemma_unplaced_contains(s, placed, 0, i2);
                    }
                }
                lemma_kahn_complete(s, deps_idx@, done@, placed, entry_models(out@));
                assert(spec_resolution_post(s, Ok::<Vec<Entry>, PollenError>(out)));
            }
            Ok(out)
        } else {
            proof {
                assert(remaining.deep_view().len() == remaining@.len());
                lemma_kahn_stuck(
                    s,
                    deps_idx@,
                    done@,
                    placed,
                    entry_models(out@),
                    remaining.deep_view(),
                );
                lemma_circular_post(s, remaining, placed);
            }
            Err(PollenError::CircularDependency(remaining))
        }
    }
}


/// Two entries each of which depends, by name or alias, on the other.
pub open spec fn spec_mutual_pair(s: Seq<EntryModel>, i: int, j: int) -> bool {
    &&& 0 <= i < s.len()
    &&& 0 <= j < s.len()
    &&& i != j
    &&& exists|d: int|
        0 <= d < s[i].depends_on.len() && spec_matches_name(s[j], #[trigger] s[i].depends_on[d])
    &&& exists|d: int|
        0 <= d < s[j].depends_on.len() && spec_matches_name(s[i], #[trigger] s[j].depends_on[d])
}

/// With distinct names and validated aliases, a token refers to at most
/// one entry.
pub proof fn lemma_match_unique(s: Seq<EntryModel>, token: Seq<char>, a: int, b: int)
    requires
        spec_names_distinct(s),
        spec_aliases_ok(s),
        0 <= a < s.len(),
        0 <= b < s.len(),
        spec_matches_name(s[a], token),
        spec_matches_name(s[b], token),
    ensures
        a == b,
{
    if a != b {
        let lo = if a < b { a } else { b };
        let hi = if a < b { b } else { a };
        if s[a].name == token && s[b].name == token {
            assert(s[lo].name == s[hi].name);
        } else if s[a].name == token && s[b].alias_as == Some(token) {
            assert(spec_alias_conflict_at(s, b, a));
        } else if s[a].alias_as == Some(token) && s[b].name == token {
            assert(spec_alias_conflict_at(s, a, b));
        } else {
            assert(s[a].alias_as == Some(token) && s[b].alias_as == Some(token));
            assert(spec_dup_alias_at(s, lo, hi));
        }
    }
}

/// A mutual dependency admits no dependency-respecting reordering: this is
/// why such a configuration can never resolve successfully.
pub proof fn lemma_mutual_pair_unorderable(
    s: Seq<EntryModel>,
    out: Seq<EntryModel>,
    p: Seq<int>,
    i: int,
    j: int,
)
    requires
        spec_names_distinct(s),
        spec_aliases_ok(s),
        spec_mutual_pair(s, i, j),
    ensures
        !(spec_perm_of(p, out, s) && spec_deps_before(out)),
{
    if spec_perm_of(p, out, s) && spec_deps_before(out) {
        let ki = lemma_position_of(s, out, p, i);
        let kj = lemma_position_of(s, out, p, j);
        lemma_mutual_precedes(s, out, p, i, j, ki, kj);
        lemma_mutual_precedes(s, out, p, j, i, kj, ki);
        assert(false);
    }
}

/// The position in `p` that carries index `i`.
proof fn lemma_position_of(s: Seq<EntryModel>, out: Seq<EntryModel>, p: Seq<int>, i: int) -> (k:
    int)
    requires
        spec_perm_of(p, out, s),
        0 <= i < s.len(),
    ensures
        0 <= k < p.len(),
        p[k] == i,
        out[k] == s[i],
{
    assert(spec_index_used(p, i));
    let k = choose|k: int| 0 <= k < p.len() && p[k] == i;
    k
}

/// If entry `i` depends on entry `j`, a match for `j` stands before `i`'s
/// position, and with unique matching that match is `j` itself.
proof fn lemma_mutual_precedes(
    s: Seq<EntryModel>,
    out: Seq<EntryModel>,
    p: Seq<int>,
    i: int,
    j: int,
    ki: int,
    kj: int,
)
    requires
        spec_names_distinct(s),
        spec_aliases_ok(s),
        spec_perm_of(p, out, s),
        spec_deps_before(out),
        0 <= i < s.len(),
        0 <= j < s.len(),
        i != j,
        exists|d: int|
            0 <= d < s[i].depends_on.len() && spec_matches_name(
                s[j],
                #[trigger] s[i].depends_on[d],
            ),
        0 <= ki < p.len(),
        p[ki] == i,
        out[ki] == s[i],
        0 <= kj < p.len(),
        p[kj] == j,
        out[kj] == s[j],
    ensures
        kj < ki,
{
    let d = choose|d: int|
        0 <= d < s[i].depends_on.len() && spec_matches_name(s[j], s[i].depends_on[d]);
    let token = s[i].depends_on[d];
    assert(out[ki].depends_on[d] == token);
    assert(spec_match_before(out, ki, out[ki].depends_on[d]));
    let j2 = choose|j2: int| 0 <= j2 < ki && spec_matches_name(out[j2], token);
    assert(out[j2] == s[p[j2]]);
    lemma_match_unique(s, token, p[j2], j);
    if j2 < kj {
        assert(p[j2] != p[kj]);
        assert(false);
    } else if kj < j2 {
        assert(p[kj] != p[j2]);
        assert(false);
    }
}

/// When resolution fails on a cycle, a mutually dependent pair is always
/// named: neither of its entries can ever be placed.
pub proof fn lemma_mutual_pair_reported(
    s: Seq<EntryModel>,
    placed: Seq<int>,
    names: Seq<Seq<char>>,
    i: int,
    j: int,
)
    requires
        spec_names_distinct(s),
        spec_aliases_ok(s),
        spec_mutual_pair(s, i, j),
        spec_stuck(s, placed, names),
    ensures
        names.contains(s[i].name),
        names.contains(s[j].name),
{
    assert(spec_mutual_pair(s, j, i));
    lemma_mutual_member_unplaced(s, placed, names, i, j);
    lemma_mutual_member_unplaced(s, placed, names, j, i);
    lemma_unplaced_contains(s, placed, 0, i);
    lemma_unplaced_contains(s, placed, 0, j);
}

/// Neither member of a mutually dependent pair is ever placed.
proof fn lemma_mutual_member_unplaced(
    s: Seq<EntryModel>,
    placed: Seq<int>,
    names: Seq<Seq<char>>,
    i: int,
    j: int,
)
    requires
        spec_names_distinct(s),
        spec_aliases_ok(s),
        spec_mutual_pair(s, i, j),
        spec_stuck(s, placed, names),
    ensures
        !spec_index_used(placed, i),
{
    if spec_index_used(placed, i) {
        let ki = choose|k: int| 0 <= k < placed.len() && placed[k] == i;
        // i's dependency on j forces j to be placed before it ...
        let kj = lemma_stuck_precedes(s, placed, i, j, ki);
        // ... and j's dependency on i forces i to be placed before that,
        // which contradicts the uniqueness of i's position.
        let ki2 = lemma_stuck_precedes(s, placed, j, i, kj);
        assert(placed[ki2] == placed[ki]);
        assert(false);
    }
}

/// Within a dependency-respecting placement, the target of a dependency
/// stands strictly earlier.
proof fn lemma_stuck_precedes(
    s: Seq<EntryModel>,
    placed: Seq<int>,
    i: int,
    j: int,
    ki: int,
) -> (kj: int)
    requires
        spec_names_distinct(s),
        spec_aliases_ok(s),
        forall|k: int| 0 <= k < placed.len() ==> 0 <= #[trigger] placed[k] < s.len(),
        spec_placed_deps_ordered(s, placed),
        0 <= i < s.len(),
        0 <= j < s.len(),
        exists|d: int|
            0 <= d < s[i].depends_on.len() && spec_matches_name(
                s[j],
                #[trigger] s[i].depends_on[d],
            ),
        0 <= ki < placed.len(),
        placed[ki] == i,
    ensures
        0 <= kj < ki,
        placed[kj] == j,
{
    let d = choose|d: int|
        0 <= d < s[i].depends_on.len() && spec_matches_name(s[j], s[i].depends_on[d]);
    let token = s[placed[ki]].depends_on[d];
    assert(spec_placed_before(s, placed, ki, s[placed[ki]].depends_on[d]));
    let k2 = choose|k2: int| 0 <= k2 < ki && spec_matches_name(s[placed[k2]], token);
    lemma_match_unique(s, token, placed[k2], j);
    k2
}


/// The least position in `p` carrying an index outside `placed`, given
/// that some position does.
proof fn lemma_min_unplaced_position(p: Seq<int>, placed: Seq<int>, k0: int) -> (k: int)
    requires
        0 <= k0 < p.len(),
        !spec_index_used(placed, p[k0]),
    ensures
        0 <= k <= k0,
        !spec_index_used(placed, p[k]),
        forall|j: int| 0 <= j < k ==> spec_index_used(placed, #[trigger] p[j]),
    decreases k0,
{
    if exists|j: int| 0 <= j < k0 && !spec_index_used(placed, #[trigger] p[j]) {
        let j = choose|j: int| 0 <= j < k0 && !spec_index_used(placed, #[trigger] p[j]);
        lemma_min_unplaced_position(p, placed, j)
    } else {
        k0
    }
}

/// A stalled ordering attempt rules out every complete one: when the
/// engine reports a cycle, no dependency-respecting reordering of the
/// input exists at all.
#[verifier::rlimit(100)]
#[verifier::spinoff_prover]
pub proof fn lemma_stuck_unorderable(
    s: Seq<EntryModel>,
    placed: Seq<int>,
    names: Seq<Seq<char>>,
    out: Seq<EntryModel>,
    p: Seq<int>,
)
    requires
        spec_names_distinct(s),
        spec_aliases_ok(s),
        spec_stuck(s, placed, names),
    ensures
        !(spec_perm_of(p, out, s) && spec_deps_before(out)),
{
    if spec_perm_of(p, out, s) && spec_deps_before(out) {
        // Some entry was left unplaced: the first name of the leftover
        // list belongs to one.
        let i0 = lemma_unplaced_names_nonempty(s, placed, names);
        let k0 = lemma_position_of(s, out, p, i0);
        // Take the earliest position of the full order that carries an
        // unplaced entry.
        let k = lemma_min_unplaced_position(p, placed, k0);
        let i = p[k];
        // That entry waits on an unplaced dependency ...
        assert(spec_blocked_dep(s, placed, i));
        let (d, m): (int, int) = choose|d: int, m: int|
            0 <= d < s[i].depends_on.len() && #[trigger] spec_resolves_to(s, s[i].depends_on[d], m)
                && !spec_index_used(placed, m);
        let token = s[i].depends_on[d];
        assert(out[k].depends_on[d] == token);
        // ... which the full order places even earlier, contradicting the
        // choice of the earliest unplaced position.
        assert(spec_match_before(out, k, out[k].depends_on[d]));
        let j = choose|j: int| 0 <= j < k && spec_matches_name(out[j], token);
        assert(out[j] == s[p[j]]);
        lemma_match_unique(s, token, p[j], m);
        assert(spec_index_used(placed, p[j]));
        assert(false);
    }
}

/// A nonempty leftover list names at least one unplaced entry.
proof fn lemma_unplaced_names_nonempty(
    s: Seq<EntryModel>,
    placed: Seq<int>,
    names: Seq<Seq<char>>,
) -> (i: int)
    requires
        spec_stuck(s, placed, names),
    ensures
        0 <= i < s.len(),
        !spec_index_used(placed, i),
{
    lemma_unplaced_from_names_unplaced(s, placed, 0)
}

/// When the leftover-name list from a position on is nonempty, some entry
/// at or after that position is unplaced.
proof fn lemma_unplaced_from_names_unplaced(s: Seq<EntryModel>, placed: Seq<int>, lo: int) -> (i:
    int)
    requires
        0 <= lo,
        spec_unplaced_from(s, placed, lo).len() > 0,
    ensures
        lo <= i < s.len(),
        !spec_index_used(placed, i),
    decreases s.len() - lo,
{
    if lo < s.len() && !spec_index_used(placed, lo) {
        lo
    } else {
        lemma_unplaced_from_names_unplaced(s, placed, lo + 1)
    }
}

} // verus!

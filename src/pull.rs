//! Planning a pull: which datasets to bring up to date, and in which waves.

use vstd::prelude::*;

use crate::dataset_id::{is_valid_dataset_id, DatasetIDBuf, InvalidDatasetID};
use crate::error::{DomainError, ResourceKind};
use crate::ingest::IngestError;
use crate::repository::{has_id, MetadataRepositoryImpl};
use crate::transform::TransformError;

verus! {

/// The dependencies that a dataset's summary lists.
pub open spec fn deps_of(repo: MetadataRepositoryImpl, id: Seq<char>) -> Seq<Seq<char>> {
    repo.summary_of(id).dependencies.deep_view()
}

/// A set that holds every present dependency of its present members.
pub open spec fn closed_under_deps(repo: MetadataRepositoryImpl, t: Set<Seq<char>>) -> bool {
    forall|x: Seq<char>, k: int|
        #![trigger t.contains(x), deps_of(repo, x)[k]]
        t.contains(x) && repo.has(x) && 0 <= k < deps_of(repo, x).len() && repo.has(deps_of(repo, x)[k])
            ==> t.contains(deps_of(repo, x)[k])
}

/// A closed set that holds the requested datasets.
pub open spec fn closed_cover(repo: MetadataRepositoryImpl, req: Seq<Seq<char>>, t: Set<Seq<char>>) -> bool {
    &&& forall|k: int| 0 <= k < req.len() ==> t.contains(#[trigger] req[k])
    &&& closed_under_deps(repo, t)
}

/// Every marked dataset belongs to every closed cover of the request.
pub open spec fn within_covers(repo: MetadataRepositoryImpl, req: Seq<Seq<char>>, marked: Seq<bool>) -> bool {
    forall|t: Set<Seq<char>>|
        #[trigger] closed_cover(repo, req, t) ==> forall|p: int|
            0 <= p < marked.len() && marked[p] ==> t.contains(#[trigger] repo.ids()[p])
}

/// Every present dependency of a marked dataset is marked.
pub open spec fn marks_closed(repo: MetadataRepositoryImpl, marked: Seq<bool>) -> bool {
    forall|p: int, k: int|
        #![trigger marked[p], deps_of(repo, repo.ids()[p])[k]]
        0 <= p < marked.len() && marked[p] && 0 <= k < deps_of(repo, repo.ids()[p]).len() && repo.has(
            deps_of(repo, repo.ids()[p])[k],
        ) ==> marked[repo.index_of(deps_of(repo, repo.ids()[p])[k])]
}

pub open spec fn num_true(s: Seq<bool>) -> int
    decreases s.len(),
{
    if s.len() == 0 {
        0
    } else {
        num_true(s.drop_last()) + if s.last() {
            1int
        } else {
            0int
        }
    }
}

proof fn lemma_num_true_bound(s: Seq<bool>)
    ensures
        0 <= num_true(s) <= s.len(),
    decreases s.len(),
{
    if s.len() > 0 {
        lemma_num_true_bound(s.drop_last());
    }
}

proof fn lemma_num_true_set(s: Seq<bool>, i: int)
    requires
        0 <= i < s.len(),
        !s[i],
    ensures
        num_true(s.update(i, true)) == num_true(s) + 1,
    decreases s.len(),
{
    if i == s.len() - 1 {
        assert(s.update(i, true).drop_last() =~= s.drop_last());
    } else {
        lemma_num_true_set(s.drop_last(), i);
        assert(s.update(i, true).drop_last() =~= s.drop_last().update(i, true));
    }
}

/// Marks the datasets to pull, by catalog position: every dataset, or the
/// requested ones, with their transitive dependencies when `recursive`.
fn select(repo: &MetadataRepositoryImpl, ids: &Vec<DatasetIDBuf>, recursive: bool, all: bool) -> (r: Result<
    Vec<bool>,
    DomainError,
>)
    requires
        repo.wf(),
    ensures
        r is Err <==> !all && exists|k: int| 0 <= k < ids@.len() && !repo.has(#[trigger] ids@[k]@),
        r matches Err(DomainError::DoesNotExist { id, .. }) ==> !repo.has(id@) && has_id(
            ids.deep_view(),
            id@,
        ),
        r is Err ==> r matches Err(DomainError::DoesNotExist { .. }),
        r matches Ok(m) ==> {
            &&& m@.len() == repo.ids().len()
            &&& all ==> forall|p: int| 0 <= p < m@.len() ==> m@[p]
            &&& !all ==> forall|k: int|
                0 <= k < ids@.len() ==> m@[repo.index_of(#[trigger] ids@[k]@)]
            &&& !all && !recursive ==> forall|p: int|
                0 <= p < m@.len() && m@[p] ==> has_id(ids.deep_view(), #[trigger] repo.ids()[p])
            &&& !all && recursive ==> marks_closed(*repo, m@)
            &&& !all && recursive ==> within_covers(*repo, ids.deep_view(), m@)
        },
{
    let n = repo.ids_len();
    let mut marked: Vec<bool> = Vec::new();
    let mut p: usize = 0;
    while p < n
        invariant
            n == repo.ids().len(),
            0 <= p <= n,
            marked@.len() == p,
            forall|x: int| 0 <= x < p ==> marked@[x] == all,
        decreases n - p,
    {
        marked.push(all);
        p += 1;
    }
    if all {
        return Ok(marked);
    }
    let ghost req = ids.deep_view();
    let m = ids.len();
    let mut k: usize = 0;
    while k < m
        invariant
            repo.wf(),
            !all,
            n == repo.ids().len(),
            m == ids@.len(),
            req == ids.deep_view(),
            0 <= k <= m,
            marked@.len() == n,
            forall|x: int| 0 <= x < k ==> repo.has(#[trigger] ids@[x]@),
            forall|x: int| 0 <= x < k ==> marked@[repo.index_of(#[trigger] ids@[x]@)],
            forall|x: int| 0 <= x < n && marked@[x] ==> has_id(req, #[trigger] repo.ids()[x]),
            within_covers(*repo, req, marked@),
        decreases m - k,
    {
        let q = match repo.find(&ids[k]) {
            Some(q) => q,
            None => {
                assert(req[k as int] == ids@[k as int]@);
                return Err(
                    DomainError::does_not_exist(ResourceKind::Dataset, ids[k].as_str().to_owned()),
                );
            },
        };
        proof {
            repo.lemma_index_of(q as int);
        }
        let ghost before = marked@;
        marked.set(q, true);
        assert(req[k as int] == ids@[k as int]@);
        assert forall|t: Set<Seq<char>>| #[trigger] closed_cover(*repo, req, t) implies forall|x: int|
            0 <= x < marked@.len() && marked@[x] ==> t.contains(#[trigger] repo.ids()[x]) by {
            assert(t.contains(req[k as int]));
        }
        k += 1;
    }
    if !recursive {
        assert forall|t: Set<Seq<char>>| #[trigger] closed_cover(*repo, req, t) implies forall|x: int|
            0 <= x < marked@.len() && marked@[x] ==> t.contains(#[trigger] repo.ids()[x]) by {
            assert forall|x: int| 0 <= x < marked@.len() && marked@[x] implies t.contains(
                #[trigger] repo.ids()[x],
            ) by {
                let j = choose|j: int| 0 <= j < req.len() && req[j] == repo.ids()[x];
                assert(t.contains(req[j]));
            }
        }
        return Ok(marked);
    }
    let mut changed = true;
    while changed
        invariant
            repo.wf(),
            !all,
            recursive,
            n == repo.ids().len(),
            m == ids@.len(),
            req == ids.deep_view(),
            marked@.len() == n,
            forall|x: int| 0 <= x < m ==> marked@[repo.index_of(#[trigger] ids@[x]@)],
                forall|x: int| 0 <= x < m ==> repo.has(#[trigger] ids@[x]@),
            within_covers(*repo, req, marked@),
            !changed ==> marks_closed(*repo, marked@),
        decreases n - num_true(marked@) + if changed {
            1int
        } else {
            0int
        },
    {
        proof {
            lemma_num_true_bound(marked@);
        }
        changed = false;
        let ghost start = marked@;
        let mut p: usize = 0;
        while p < n
            invariant
                repo.wf(),
                n == repo.ids().len(),
                m == ids@.len(),
                req == ids.deep_view(),
                marked@.len() == n,
                0 <= p <= n,
                forall|x: int| 0 <= x < m ==> marked@[repo.index_of(#[trigger] ids@[x]@)],
                forall|x: int| 0 <= x < m ==> repo.has(#[trigger] ids@[x]@),
                within_covers(*repo, req, marked@),
                start.len() == n,
                num_true(start) <= n,
                changed ==> num_true(marked@) > num_true(start),
                !changed ==> marked@ == start,
                !changed ==> forall|x: int, k: int|
                    #![trigger marked@[x], deps_of(*repo, repo.ids()[x])[k]]
                    0 <= x < p && marked@[x] && 0 <= k < deps_of(*repo, repo.ids()[x]).len()
                        && repo.has(deps_of(*repo, repo.ids()[x])[k]) ==> marked@[repo.index_of(
                        deps_of(*repo, repo.ids()[x])[k],
                    )],
            decreases n - p,
        {
            if marked[p] {
                let deps = &repo.summary_at(p).dependencies;
                assert(deps.deep_view() == deps_of(*repo, repo.ids()[p as int]));
                let dn = deps.len();
                let mut k: usize = 0;
                while k < dn
                    invariant
                        repo.wf(),
                        n == repo.ids().len(),
                        m == ids@.len(),
                        req == ids.deep_view(),
                        marked@.len() == n,
                        0 <= p < n,
                        0 <= k <= dn,
                        dn == deps@.len(),
                        deps.deep_view() == deps_of(*repo, repo.ids()[p as int]),
                        marked@[p as int],
                        forall|x: int| 0 <= x < m ==> marked@[repo.index_of(#[trigger] ids@[x]@)],
                forall|x: int| 0 <= x < m ==> repo.has(#[trigger] ids@[x]@),
                        within_covers(*repo, req, marked@),
                        start.len() == n,
                        num_true(start) <= n,
                        changed ==> num_true(marked@) > num_true(start),
                        !changed ==> marked@ == start,
                        !changed ==> forall|x: int, j: int|
                            #![trigger marked@[x], deps_of(*repo, repo.ids()[x])[j]]
                            0 <= x < p && marked@[x] && 0 <= j < deps_of(*repo, repo.ids()[x]).len()
                                && repo.has(deps_of(*repo, repo.ids()[x])[j]) ==> marked@[repo.index_of(
                                deps_of(*repo, repo.ids()[x])[j],
                            )],
                        !changed ==> forall|j: int|
                            0 <= j < k && repo.has(#[trigger] deps_of(*repo, repo.ids()[p as int])[j])
                                ==> marked@[repo.index_of(deps_of(*repo, repo.ids()[p as int])[j])],
                    decreases dn - k,
                {
                    assert(deps@[k as int]@ == deps_of(*repo, repo.ids()[p as int])[k as int]);
                    match repo.find(&deps[k]) {
                        Some(q) => {
                            proof {
                                repo.lemma_index_of(q as int);
                            }
                            if !marked[q] {
                                let ghost before = marked@;
                                proof {
                                    lemma_num_true_set(before, q as int);
                                    lemma_num_true_bound(start);
                                }
                                marked.set(q, true);
                                assert(marked@ == before.update(q as int, true));
                                assert forall|t: Set<Seq<char>>| #[trigger]
                                    closed_cover(*repo, req, t) implies forall|x: int|
                                    0 <= x < marked@.len() && marked@[x] ==> t.contains(
                                        #[trigger] repo.ids()[x],
                                    ) by {
                                    assert(t.contains(repo.ids()[p as int]));
                                    assert(t.contains(deps_of(*repo, repo.ids()[p as int])[k as int]));
                                    assert forall|x: int| 0 <= x < marked@.len() && marked@[x] implies t.contains(
                                        #[trigger] repo.ids()[x],
                                    ) by {
                                        if x != q {
                                            assert(before[x]);
                                        }
                                    }
                                }
                                changed = true;
                            }
                        },
                        None => {},
                    }
                    k += 1;
                }
            }
            p += 1;
        }
        proof {
            lemma_num_true_bound(marked@);
        }
    }
    Ok(marked)
}

/// Whether some dataset is marked and not yet placed in a wave.
fn any_pending(marked: &Vec<bool>, assigned: &Vec<bool>) -> (r: bool)
    requires
        marked@.len() == assigned@.len(),
    ensures
        r == exists|p: int| 0 <= p < marked@.len() && marked@[p] && !assigned@[p],
{
    let n = marked.len();
    let mut p: usize = 0;
    while p < n
        invariant
            n == marked@.len(),
            n == assigned@.len(),
            0 <= p <= n,
            forall|x: int| 0 <= x < p ==> !(marked@[x] && !assigned@[x]),
        decreases n - p,
    {
        if marked[p] && !assigned[p] {
            return true;
        }
        p += 1;
    }
    false
}

/// Every marked dependency of the dataset at `p` has been placed.
pub open spec fn placed_deps(repo: MetadataRepositoryImpl, p: int, marked: Seq<bool>, assigned: Seq<bool>) -> bool {
    forall|k: int|
        0 <= k < deps_of(repo, repo.ids()[p]).len() && repo.has(#[trigger] deps_of(repo, repo.ids()[p])[k])
            && marked[repo.index_of(deps_of(repo, repo.ids()[p])[k])] ==> assigned[repo.index_of(
            deps_of(repo, repo.ids()[p])[k],
        )]
}

/// A rank that every present dependency of a present dataset is below: the
/// datasets' dependencies have no cycle.
pub open spec fn deps_ranked(repo: MetadataRepositoryImpl, rank: spec_fn(Seq<char>) -> nat) -> bool {
    forall|x: Seq<char>, k: int|
        #![trigger deps_of(repo, x)[k]]
        repo.has(x) && 0 <= k < deps_of(repo, x).len() && repo.has(deps_of(repo, x)[k]) ==> rank(
            deps_of(repo, x)[k],
        ) < rank(x)
}

/// When dependencies are ranked, some marked and unplaced dataset has all its
/// marked dependencies placed.
proof fn lemma_no_unplaced_below(
    repo: MetadataRepositoryImpl,
    marked: Seq<bool>,
    assigned: Seq<bool>,
    rank: spec_fn(Seq<char>) -> nat,
    r: nat,
)
    requires
        repo.wf(),
        marked.len() == repo.ids().len(),
        assigned.len() == repo.ids().len(),
        deps_ranked(repo, rank),
        forall|x: int|
            0 <= x < marked.len() && marked[x] && !assigned[x] ==> !placed_deps(repo, x, marked, assigned),
    ensures
        forall|x: int|
            0 <= x < marked.len() && marked[x] && !assigned[x] ==> rank(#[trigger] repo.ids()[x]) >= r,
    decreases r,
{
    if r > 0 {
        lemma_no_unplaced_below(repo, marked, assigned, rank, (r - 1) as nat);
        assert forall|x: int| 0 <= x < marked.len() && marked[x] && !assigned[x] implies rank(
            #[trigger] repo.ids()[x],
        ) >= r by {
            assert(!placed_deps(repo, x, marked, assigned));
            let k = choose|k: int|
                0 <= k < deps_of(repo, repo.ids()[x]).len() && repo.has(
                    #[trigger] deps_of(repo, repo.ids()[x])[k],
                ) && marked[repo.index_of(deps_of(repo, repo.ids()[x])[k])] && !assigned[repo.index_of(
                    deps_of(repo, repo.ids()[x])[k],
                )];
            let d = deps_of(repo, repo.ids()[x])[k];
            let q = repo.index_of(d);
            repo.lemma_index_of(x);
            assert(repo.ids()[q] == d);
            assert(rank(d) < rank(repo.ids()[x]));
            assert(rank(repo.ids()[q]) >= r - 1);
        }
    }
}

/// Whether every marked dependency of the dataset at `p` has been placed.
fn deps_placed(repo: &MetadataRepositoryImpl, p: usize, marked: &Vec<bool>, assigned: &Vec<bool>) -> (r: bool)
    requires
        repo.wf(),
        p < repo.ids().len(),
        marked@.len() == repo.ids().len(),
        assigned@.len() == repo.ids().len(),
    ensures
        r == placed_deps(*repo, p as int, marked@, assigned@),
{
    let deps = &repo.summary_at(p).dependencies;
    let ghost ds = deps_of(*repo, repo.ids()[p as int]);
    assert(deps.deep_view() == ds);
    let dn = deps.len();
    let mut k: usize = 0;
    while k < dn
        invariant
            repo.wf(),
            dn == deps@.len(),
            deps.deep_view() == ds,
            ds == deps_of(*repo, repo.ids()[p as int]),
            marked@.len() == repo.ids().len(),
            assigned@.len() == repo.ids().len(),
            0 <= k <= dn,
            forall|j: int|
                0 <= j < k && repo.has(#[trigger] ds[j]) && marked@[repo.index_of(ds[j])]
                    ==> assigned@[repo.index_of(ds[j])],
        decreases dn - k,
    {
        assert(deps@[k as int]@ == ds[k as int]);
        match repo.find(&deps[k]) {
            Some(q) => {
                proof {
                    repo.lemma_index_of(q as int);
                }
                if marked[q] && !assigned[q] {
                    return false;
                }
            },
            None => {},
        }
        k += 1;
    }
    true
}

/// Whether `id` is in some wave.
pub open spec fn in_plan(w: Seq<Seq<Seq<char>>>, id: Seq<char>) -> bool {
    exists|a: int, i: int| 0 <= a < w.len() && 0 <= i < w[a].len() && w[a][i] == id
}

/// Every dataset of a wave comes after the waves of its planned dependencies.
pub open spec fn waves_ordered(repo: MetadataRepositoryImpl, w: Seq<Seq<Seq<char>>>) -> bool {
    forall|a: int, i: int, k: int|
        #![trigger w[a][i], deps_of(repo, w[a][i])[k]]
        0 <= a < w.len() && 0 <= i < w[a].len() && 0 <= k < deps_of(repo, w[a][i]).len() && in_plan(
            w,
            deps_of(repo, w[a][i])[k],
        ) ==> exists|b: int, j: int|
            0 <= b < a && 0 <= j < w[b].len() && w[b][j] == deps_of(repo, w[a][i])[k]
}

/// No dataset is planned twice.
pub open spec fn waves_distinct(w: Seq<Seq<Seq<char>>>) -> bool {
    forall|a: int, i: int, b: int, j: int|
        0 <= a < w.len() && 0 <= i < w[a].len() && 0 <= b < w.len() && 0 <= j < w[b].len() && (a
            != b || i != j) ==> w[a][i] != w[b][j]
}

/// Groups the marked datasets into waves: each wave holds those whose marked
/// dependencies are all in earlier waves. Fails with the position of a marked
/// dataset when the rest wait on a cycle.
fn plan_waves(repo: &MetadataRepositoryImpl, marked: &Vec<bool>) -> (r: Result<Vec<Vec<DatasetIDBuf>>, usize>)
    requires
        repo.wf(),
        marked@.len() == repo.ids().len(),
    ensures
        r matches Err(p) ==> p < marked@.len() && marked@[p as int],
        r is Err ==> forall|rank: spec_fn(Seq<char>) -> nat| !#[trigger] deps_ranked(*repo, rank),
        r matches Ok(w) ==> {
            &&& forall|p: int|
                0 <= p < marked@.len() ==> (marked@[p] <==> in_plan(w.deep_view(), #[trigger] repo.ids()[p]))
            &&& forall|a: int, i: int|
                0 <= a < w.deep_view().len() && 0 <= i < w.deep_view()[a].len() ==> repo.has(
                    #[trigger] w.deep_view()[a][i],
                )
            &&& waves_ordered(*repo, w.deep_view())
            &&& waves_distinct(w.deep_view())
        },
{
    let n = repo.ids_len();
    let mut assigned: Vec<bool> = Vec::new();
    let mut p: usize = 0;
    while p < n
        invariant
            n == repo.ids().len(),
            0 <= p <= n,
            assigned@.len() == p,
            forall|x: int| 0 <= x < p ==> !assigned@[x],
        decreases n - p,
    {
        assigned.push(false);
        p += 1;
    }
    let ghost mut level: Seq<int> = Seq::new(n as nat, |x: int| 0int);
    let ghost mut pos: Seq<Seq<int>> = Seq::empty();
    let mut waves: Vec<Vec<DatasetIDBuf>> = Vec::new();
    let mut pending = any_pending(marked, &assigned);
    while pending
        invariant
            repo.wf(),
            n == repo.ids().len(),
            marked@.len() == n,
            assigned@.len() == n,
            level.len() == n,
            pos.len() == waves@.len(),
            pending == exists|x: int| 0 <= x < n && marked@[x] && !assigned@[x],
            forall|x: int| 0 <= x < n && assigned@[x] ==> marked@[x],
            forall|x: int| 0 <= x < n && assigned@[x] ==> 0 <= level[x] < waves@.len(),
            forall|a: int| 0 <= a < waves@.len() ==> (#[trigger] pos[a]).len() == waves@[a]@.len(),
            forall|a: int, i: int|
                0 <= a < waves@.len() && 0 <= i < waves@[a]@.len() ==> {
                    let x = #[trigger] pos[a][i];
                    &&& 0 <= x < n
                    &&& assigned@[x]
                    &&& level[x] == a
                    &&& waves@[a]@[i]@ == repo.ids()[x]
                },
            forall|a: int, i: int, j: int|
                0 <= a < waves@.len() && 0 <= i < j < waves@[a]@.len() ==> pos[a][i] < pos[a][j],
            forall|x: int|
                0 <= x < n && #[trigger] assigned@[x] ==> exists|i: int|
                    0 <= i < waves@[level[x]]@.len() && pos[level[x]][i] == x,
            forall|x: int, k: int|
                #![trigger assigned@[x], deps_of(*repo, repo.ids()[x])[k]]
                0 <= x < n && assigned@[x] && 0 <= k < deps_of(*repo, repo.ids()[x]).len() && repo.has(
                    deps_of(*repo, repo.ids()[x])[k],
                ) && marked@[repo.index_of(deps_of(*repo, repo.ids()[x])[k])] ==> {
                    let q = repo.index_of(deps_of(*repo, repo.ids()[x])[k]);
                    assigned@[q] && level[q] < level[x]
                },
        decreases n - num_true(assigned@) + if pending {
            1int
        } else {
            0int
        },
    {
        let w = waves.len();
        // The marked datasets whose marked dependencies are all placed.
        let mut cur: Vec<usize> = Vec::new();
        let mut p: usize = 0;
        while p < n
            invariant
                repo.wf(),
                n == repo.ids().len(),
                marked@.len() == n,
                assigned@.len() == n,
                0 <= p <= n,
                forall|i: int| 0 <= i < cur@.len() ==> (#[trigger] cur@[i]) < p,
                forall|i: int, j: int| 0 <= i < j < cur@.len() ==> cur@[i] < cur@[j],
                forall|i: int|
                    0 <= i < cur@.len() ==> {
                        let x = #[trigger] cur@[i] as int;
                        &&& marked@[x]
                        &&& !assigned@[x]
                        &&& forall|k: int|
                            0 <= k < deps_of(*repo, repo.ids()[x]).len() && repo.has(
                                #[trigger] deps_of(*repo, repo.ids()[x])[k],
                            ) && marked@[repo.index_of(deps_of(*repo, repo.ids()[x])[k])]
                                ==> assigned@[repo.index_of(deps_of(*repo, repo.ids()[x])[k])]
                    },
                cur@.len() == 0 ==> forall|x: int|
                    0 <= x < p && marked@[x] && !assigned@[x] ==> !placed_deps(*repo, x, marked@, assigned@),
            decreases n - p,
        {
            if marked[p] && !assigned[p] && deps_placed(repo, p, marked, &assigned) {
                cur.push(p);
            }
            p += 1;
        }
        if cur.len() == 0 {
            let mut x: usize = 0;
            while x < n && !(marked[x] && !assigned[x])
                invariant
                    n == marked@.len(),
                    n == assigned@.len(),
                    0 <= x <= n,
                    exists|y: int| x <= y < n && marked@[y] && !assigned@[y],
                decreases n - x,
            {
                x += 1;
            }
            proof {
                assert forall|rank: spec_fn(Seq<char>) -> nat| !#[trigger] deps_ranked(*repo, rank) by {
                    if deps_ranked(*repo, rank) {
                        lemma_no_unplaced_below(*repo, marked@, assigned@, rank, rank(repo.ids()[x as int]) + 1);
                    }
                }
            }
            return Err(x);
        }
        // Place them.
        let ghost start_assigned = assigned@;
        let ghost start_level = level;
        let ghost old_pos = pos;
        let ghost old_waves = waves@;
        let mut wave: Vec<DatasetIDBuf> = Vec::new();
        let c = cur.len();
        let mut i: usize = 0;
        while i < c
            invariant
                repo.wf(),
                n == repo.ids().len(),
                marked@.len() == n,
                assigned@.len() == n,
                start_assigned.len() == n,
                level.len() == n,
                c == cur@.len(),
                0 <= i <= c,
                wave@.len() == i,
                w == waves@.len(),
                num_true(assigned@) >= num_true(start_assigned) + i,
                start_level.len() == n,
                forall|x: int| 0 <= x < n && start_assigned[x] ==> assigned@[x] && level[x] == start_level[x],
                forall|x: int| 0 <= x < n && assigned@[x] ==> marked@[x],
                forall|x: int| 0 <= x < n && start_assigned[x] ==> marked@[x],
                forall|x: int| 0 <= x < n && assigned@[x] && !start_assigned[x] ==> level[x] == w,
                forall|j: int| 0 <= j < c ==> (#[trigger] cur@[j]) < n,
                forall|j: int| 0 <= j < c ==> marked@[#[trigger] cur@[j] as int],
                forall|j1: int, j2: int| 0 <= j1 < j2 < c ==> cur@[j1] < cur@[j2],
                forall|j: int| 0 <= j < c ==> !start_assigned[#[trigger] cur@[j] as int],
                forall|j: int| 0 <= j < i ==> assigned@[#[trigger] cur@[j] as int],
                forall|j: int| i <= j < c ==> !assigned@[#[trigger] cur@[j] as int],
                forall|x: int|
                    0 <= x < n && assigned@[x] && !start_assigned[x] ==> exists|j: int|
                        0 <= j < i && cur@[j] == x,
                forall|j: int| 0 <= j < i ==> wave@[j]@ == repo.ids()[#[trigger] cur@[j] as int],
            decreases c - i,
        {
            let x = cur[i];
            proof {
                lemma_num_true_set(assigned@, x as int);
                level = level.update(x as int, w as int);
            }
            assigned.set(x, true);
            wave.push(repo.id_at(x).copied());
            i += 1;
        }
        proof {
            let cw = cur@.map_values(|x: usize| x as int);
            pos = pos.push(cw);
        }
        waves.push(wave);
        proof {
            lemma_num_true_bound(assigned@);
            assert forall|a: int| 0 <= a < waves@.len() implies (#[trigger] pos[a]).len()
                == waves@[a]@.len() by {
                if a < w {
                    assert(pos[a] == old_pos[a]);
                    assert(waves@[a] == old_waves[a]);
                }
            }
            assert forall|a: int, i: int|
                0 <= a < waves@.len() && 0 <= i < waves@[a]@.len() implies {
                    let x = #[trigger] pos[a][i];
                    &&& 0 <= x < n
                    &&& assigned@[x]
                    &&& level[x] == a
                    &&& waves@[a]@[i]@ == repo.ids()[x]
                } by {
                if a < w {
                    assert(pos[a] == old_pos[a]);
                    assert(waves@[a] == old_waves[a]);
                    assert(0 <= old_pos[a][i] < n && start_assigned[old_pos[a][i]]);
                } else {
                    assert(pos[a][i] == cur@[i] as int);
                    assert(assigned@[cur@[i] as int]);
                }
            }
            assert forall|a: int, i: int, j: int|
                0 <= a < waves@.len() && 0 <= i < j < waves@[a]@.len() implies pos[a][i] < pos[a][j] by {
                if a < w {
                    assert(pos[a] == old_pos[a]);
                    assert(waves@[a] == old_waves[a]);
                }
            }
            assert forall|x: int| 0 <= x < n && #[trigger] assigned@[x] implies exists|i: int|
                0 <= i < waves@[level[x]]@.len() && pos[level[x]][i] == x by {
                if start_assigned[x] {
                    let i0 = choose|i: int| 0 <= i < old_waves[start_level[x]]@.len() && old_pos[start_level[x]][i] == x;
                    assert(pos[level[x]] == old_pos[start_level[x]]);
                    assert(waves@[level[x]] == old_waves[start_level[x]]);
                    assert(pos[level[x]][i0] == x);
                } else {
                    let j = choose|j: int| 0 <= j < c && cur@[j] == x;
                    assert(pos[level[x]][j] == x);
                }
            }
            assert forall|x: int, k: int|
                #![trigger assigned@[x], deps_of(*repo, repo.ids()[x])[k]]
                0 <= x < n && assigned@[x] && 0 <= k < deps_of(*repo, repo.ids()[x]).len() && repo.has(
                    deps_of(*repo, repo.ids()[x])[k],
                ) && marked@[repo.index_of(deps_of(*repo, repo.ids()[x])[k])] implies {
                    let q = repo.index_of(deps_of(*repo, repo.ids()[x])[k]);
                    assigned@[q] && level[q] < level[x]
                } by {
                let q = repo.index_of(deps_of(*repo, repo.ids()[x])[k]);
                if start_assigned[x] {
                    assert(start_assigned[q] && start_level[q] < start_level[x]);
                } else {
                    let j = choose|j: int| 0 <= j < c && cur@[j] == x;
                    assert(start_assigned[q]);
                }
            }
        }
        pending = any_pending(marked, &assigned);
    }
    proof {
        let wv = waves.deep_view();
        assert forall|a: int, i: int|
            0 <= a < wv.len() && 0 <= i < wv[a].len() implies wv[a][i] == repo.ids()[pos[a][i]] && 0
            <= pos[a][i] < n && assigned@[pos[a][i]] && level[pos[a][i]] == a by {
            assert(wv[a] == waves@[a].deep_view());
        }
        assert forall|x: int| 0 <= x < n && assigned@[x] implies in_plan(wv, repo.ids()[x]) by {
            let i = choose|i: int| 0 <= i < waves@[level[x]]@.len() && pos[level[x]][i] == x;
            assert(wv[level[x]] == waves@[level[x]].deep_view());
            assert(wv[level[x]][i] == repo.ids()[x]);
        }
        assert forall|p: int|
            0 <= p < marked@.len() implies (marked@[p] <==> in_plan(wv, #[trigger] repo.ids()[p])) by {
            if in_plan(wv, repo.ids()[p]) {
                let (a, i) = choose|a: int, i: int|
                    0 <= a < wv.len() && 0 <= i < wv[a].len() && wv[a][i] == repo.ids()[p];
                assert(pos[a][i] == p);
            }
        }
        assert forall|a: int, i: int|
            0 <= a < wv.len() && 0 <= i < wv[a].len() implies repo.has(#[trigger] wv[a][i]) by {
            repo.lemma_index_of(pos[a][i]);
        }
        assert forall|a: int, i: int, k: int|
            #![trigger wv[a][i], deps_of(*repo, wv[a][i])[k]]
            0 <= a < wv.len() && 0 <= i < wv[a].len() && 0 <= k < deps_of(*repo, wv[a][i]).len()
                && in_plan(wv, deps_of(*repo, wv[a][i])[k]) implies exists|b: int, j: int|
            0 <= b < a && 0 <= j < wv[b].len() && wv[b][j] == deps_of(*repo, wv[a][i])[k] by {
            let x = pos[a][i];
            let d = deps_of(*repo, wv[a][i])[k];
            let (b0, j0) = choose|b0: int, j0: int|
                0 <= b0 < wv.len() && 0 <= j0 < wv[b0].len() && wv[b0][j0] == d;
            let y = pos[b0][j0];
            repo.lemma_index_of(y);
            assert(repo.has(d));
            assert(repo.index_of(d) == y);
            assert(marked@[y]);
            assert(deps_of(*repo, repo.ids()[x])[k] == d);
            assert(assigned@[y] && level[y] < level[x]);
            let j = choose|j: int| 0 <= j < waves@[level[y]]@.len() && pos[level[y]][j] == y;
            assert(wv[level[y]] == waves@[level[y]].deep_view());
            assert(wv[level[y]][j] == d);
        }
        assert forall|a: int, i: int, b: int, j: int|
            0 <= a < wv.len() && 0 <= i < wv[a].len() && 0 <= b < wv.len() && 0 <= j < wv[b].len() && (a
                != b || i != j) implies wv[a][i] != wv[b][j] by {
            if wv[a][i] == wv[b][j] {
                assert(pos[a][i] == pos[b][j]);
                if i < j {
                    assert(pos[a][i] < pos[a][j]);
                } else if j < i {
                    assert(pos[a][j] < pos[a][i]);
                }
            }
        }
    }
    Ok(waves)
}

/// Plans a pull: the waves of datasets to bring up to date, roots first.
/// With `all`, every dataset; otherwise the requested ones, and with
/// `recursive` also everything they depend on, directly or not. Each dataset
/// comes in a later wave than every planned dataset it depends on.
pub fn plan_pull(repo: &MetadataRepositoryImpl, ids: &Vec<DatasetIDBuf>, recursive: bool, all: bool) -> (r:
    Result<Vec<Vec<DatasetIDBuf>>, DomainError>)
    requires
        repo.wf(),
    ensures
        (!all && exists|k: int| 0 <= k < ids@.len() && !repo.has(#[trigger] ids@[k]@)) <==> r matches Err(
            DomainError::DoesNotExist { .. },
        ),
        r matches Err(DomainError::DoesNotExist { id, .. }) ==> !repo.has(id@) && has_id(
            ids.deep_view(),
            id@,
        ),
        r is Err ==> r matches Err(DomainError::DoesNotExist { .. }) || r matches Err(
            DomainError::CircularDependency { .. },
        ),
        r matches Err(DomainError::CircularDependency { .. }) ==> forall|rank: spec_fn(Seq<char>) -> nat|
            !#[trigger] deps_ranked(*repo, rank),
        forall|rank: spec_fn(Seq<char>) -> nat|
            #[trigger] deps_ranked(*repo, rank) && (all || forall|k: int|
                0 <= k < ids@.len() ==> repo.has(#[trigger] ids@[k]@)) ==> r is Ok,
        r matches Ok(w) ==> {
            let wv = w.deep_view();
            let req = ids.deep_view();
            &&& forall|a: int, i: int|
                0 <= a < wv.len() && 0 <= i < wv[a].len() ==> repo.has(#[trigger] wv[a][i])
            &&& all ==> forall|p: int| 0 <= p < repo.ids().len() ==> in_plan(wv, #[trigger] repo.ids()[p])
            &&& !all ==> forall|k: int| 0 <= k < req.len() ==> in_plan(wv, #[trigger] req[k])
            &&& !all && !recursive ==> forall|a: int, i: int|
                0 <= a < wv.len() && 0 <= i < wv[a].len() ==> has_id(req, #[trigger] wv[a][i])
            &&& !all && recursive ==> forall|a: int, i: int, k: int|
                #![trigger wv[a][i], deps_of(*repo, wv[a][i])[k]]
                0 <= a < wv.len() && 0 <= i < wv[a].len() && 0 <= k < deps_of(*repo, wv[a][i]).len()
                    && repo.has(deps_of(*repo, wv[a][i])[k]) ==> in_plan(wv, deps_of(*repo, wv[a][i])[k])
            &&& !all && recursive ==> forall|t: Set<Seq<char>>|
                #[trigger] closed_cover(*repo, req, t) ==> forall|a: int, i: int|
                    0 <= a < wv.len() && 0 <= i < wv[a].len() ==> t.contains(#[trigger] wv[a][i])
            &&& waves_ordered(*repo, wv)
            &&& waves_distinct(wv)
        },
{
    let marked = match select(repo, ids, recursive, all) {
        Ok(m) => m,
        Err(e) => {
            return Err(e);
        },
    };
    match plan_waves(repo, &marked) {
        Ok(w) => {
            proof {
                let wv = w.deep_view();
                let req = ids.deep_view();
                assert forall|a: int, i: int|
                    0 <= a < wv.len() && 0 <= i < wv[a].len() implies marked@[repo.index_of(wv[a][i])]
                    && repo.ids()[repo.index_of(wv[a][i])] == wv[a][i] by {
                    assert(repo.has(wv[a][i]));
                    let p = repo.index_of(wv[a][i]);
                    assert(in_plan(wv, repo.ids()[p]));
                }
                if !all {
                    assert forall|k: int| 0 <= k < req.len() implies in_plan(wv, #[trigger] req[k]) by {
                        assert(req[k] == ids@[k]@);
                        let p = repo.index_of(ids@[k]@);
                        assert(marked@[p]);
                        assert(in_plan(wv, repo.ids()[p]));
                    }
                }
                if !all && recursive {
                    assert forall|a: int, i: int, k: int|
                        #![trigger wv[a][i], deps_of(*repo, wv[a][i])[k]]
                        0 <= a < wv.len() && 0 <= i < wv[a].len() && 0 <= k < deps_of(*repo, wv[a][i]).len()
                            && repo.has(deps_of(*repo, wv[a][i])[k]) implies in_plan(
                        wv,
                        deps_of(*repo, wv[a][i])[k],
                    ) by {
                        let p = repo.index_of(wv[a][i]);
                        let d = deps_of(*repo, repo.ids()[p])[k];
                        assert(marked@[p]);
                        assert(marked@[repo.index_of(d)]);
                        assert(in_plan(wv, repo.ids()[repo.index_of(d)]));
                    }
                    assert forall|t: Set<Seq<char>>| #[trigger] closed_cover(*repo, req, t) implies forall|
                        a: int,
                        i: int,
                    | 0 <= a < wv.len() && 0 <= i < wv[a].len() ==> t.contains(#[trigger] wv[a][i]) by {
                        assert forall|a: int, i: int| 0 <= a < wv.len() && 0 <= i < wv[a].len() implies t.contains(
                            #[trigger] wv[a][i],
                        ) by {
                            let p = repo.index_of(wv[a][i]);
                            assert(marked@[p]);
                            assert(t.contains(repo.ids()[p]));
                        }
                    }
                }
            }
            Ok(w)
        },
        Err(p) => {
            let id = repo.id_at(p);
            Err(DomainError::CircularDependency { kind: ResourceKind::Dataset, id: id.as_str().to_owned() })
        },
    }
}

#[derive(Debug)]
pub enum PullResult {
    UpToDate,
    Updated { block_hash: String },
}

#[derive(Debug)]
pub enum PullError {
    IngestError(IngestError),
    TransformError(TransformError),
}

/// How a command line was misused.
#[derive(Debug)]
pub enum CommandError {
    UsageError { msg: String },
    InvalidDatasetID(InvalidDatasetID),
}

/// The arguments of `pull [IDS...] [--all] [--recursive]`.
#[derive(Debug)]
pub struct PullCommand {
    pub ids: Vec<String>,
    pub all: bool,
    pub recursive: bool,
}

impl PullCommand {
    pub fn new(ids: Vec<String>, all: bool, recursive: bool) -> (r: PullCommand)
        ensures
            r.ids == ids,
            r.all == all,
            r.recursive == recursive,
    {
        PullCommand { ids, all, recursive }
    }

    /// The datasets named on the command line; with `--all` (and no names)
    /// the list is empty and stands for every dataset.
    pub fn dataset_ids(&self) -> (r: Result<Vec<DatasetIDBuf>, CommandError>)
        ensures
            self.ids@.len() == 0 && !self.all && !self.recursive ==> (r matches Err(
                CommandError::UsageError { msg },
            ) && msg@ == "Specify a dataset or pass --all"@),
            self.ids@.len() > 0 && self.all ==> (r matches Err(CommandError::UsageError { msg })
                && msg@ == "Invalid combination of arguments"@),
            self.ids@.len() == 0 && (self.all || self.recursive) ==> (r matches Ok(v) && v@.len() == 0),
            self.ids@.len() > 0 && !self.all ==> ((r is Ok) <==> forall|k: int|
                0 <= k < self.ids@.len() ==> is_valid_dataset_id(#[trigger] self.ids@[k]@)),
            self.ids@.len() > 0 && !self.all ==> (r matches Ok(v) ==> v@.len() == self.ids@.len()
                && forall|k: int| 0 <= k < v@.len() ==> (#[trigger] v@[k])@ == self.ids@[k]@),
            self.ids@.len() > 0 && !self.all ==> (r matches Err(CommandError::InvalidDatasetID(e))
                ==> exists|k: int|
                0 <= k < self.ids@.len() && e.invalid_id@ == (#[trigger] self.ids@[k])@
                    && !is_valid_dataset_id(self.ids@[k]@)),
            self.ids@.len() > 0 && !self.all ==> !(r matches Err(CommandError::UsageError { .. })),
    {
        let n = self.ids.len();
        if n == 0 && !self.all && !self.recursive {
            return Err(CommandError::UsageError { msg: "Specify a dataset or pass --all".to_owned() });
        }
        if n > 0 && self.all {
            return Err(CommandError::UsageError { msg: "Invalid combination of arguments".to_owned() });
        }
        let mut out: Vec<DatasetIDBuf> = Vec::new();
        let mut k: usize = 0;
        while k < n
            invariant
                n == self.ids@.len(),
                !(n > 0 && self.all),
                0 <= k <= n,
                out@.len() == k,
                forall|x: int| 0 <= x < k ==> (#[trigger] out@[x])@ == self.ids@[x]@,
                forall|x: int| 0 <= x < k ==> is_valid_dataset_id(#[trigger] self.ids@[x]@),
            decreases n - k,
        {
            match DatasetIDBuf::try_from(self.ids[k].as_str()) {
                Ok(id) => {
                    out.push(id);
                },
                Err(e) => {
                    return Err(CommandError::InvalidDatasetID(e));
                },
            }
            k += 1;
        }
        Ok(out)
    }
}

/// Counts of the outcomes of a pull.
#[derive(Debug, Clone, Copy, PartialEq, Eq, Structural)]
pub struct PullTally {
    pub updated: usize,
    pub up_to_date: usize,
    pub errors: usize,
}

pub open spec fn count_updated(s: Seq<(DatasetIDBuf, Result<PullResult, PullError>)>) -> int
    decreases s.len(),
{
    if s.len() == 0 {
        0
    } else {
        count_updated(s.drop_last()) + if s.last().1 matches Ok(PullResult::Updated { .. }) {
            1int
        } else {
            0int
        }
    }
}

pub open spec fn count_up_to_date(s: Seq<(DatasetIDBuf, Result<PullResult, PullError>)>) -> int
    decreases s.len(),
{
    if s.len() == 0 {
        0
    } else {
        count_up_to_date(s.drop_last()) + if s.last().1 matches Ok(PullResult::UpToDate) {
            1int
        } else {
            0int
        }
    }
}

pub open spec fn count_errors(s: Seq<(DatasetIDBuf, Result<PullResult, PullError>)>) -> int
    decreases s.len(),
{
    if s.len() == 0 {
        0
    } else {
        count_errors(s.drop_last()) + if s.last().1 is Err {
            1int
        } else {
            0int
        }
    }
}

/// Counts updated, up-to-date and failed datasets.
pub fn tally(results: &Vec<(DatasetIDBuf, Result<PullResult, PullError>)>) -> (r: PullTally)
    ensures
        r.updated == count_updated(results@),
        r.up_to_date == count_up_to_date(results@),
        r.errors == count_errors(results@),
        r.updated + r.up_to_date + r.errors == results@.len(),
{
    let n = results.len();
    let mut t = PullTally { updated: 0, up_to_date: 0, errors: 0 };
    let mut i: usize = 0;
    while i < n
        invariant
            n == results@.len(),
            0 <= i <= n,
            t.updated == count_updated(results@.subrange(0, i as int)),
            t.up_to_date == count_up_to_date(results@.subrange(0, i as int)),
            t.errors == count_errors(results@.subrange(0, i as int)),
            t.updated + t.up_to_date + t.errors == i,
        decreases n - i,
    {
        assert(results@.subrange(0, i + 1).drop_last() =~= results@.subrange(0, i as int));
        match &results[i].1 {
            Ok(PullResult::Updated { .. }) => {
                t.updated += 1;
            },
            Ok(PullResult::UpToDate) => {
                t.up_to_date += 1;
            },
            Err(_) => {
                t.errors += 1;
            },
        }
        i += 1;
    }
    assert(results@.subrange(0, n as int) =~= results@);
    t
}

} // verus!

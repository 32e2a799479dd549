//! The catalog of datasets: one chain and one summary per identifier.

use vstd::multiset::Multiset;
use vstd::prelude::*;

use crate::dataset_id::DatasetIDBuf;
use crate::error::{DomainError, ResourceKind};
use crate::layout::{join, joined, WorkspaceLayout};
use crate::metadata::{
    copy_ids, DatasetKind, DatasetSnapshot, DatasetSource, DatasetSummary, DatasetVocabulary,
    MetadataBlock,
};
use crate::metadata_chain::{str_eq, with_hash, MetadataChain};

verus! {

broadcast use {
    vstd::seq_lib::group_to_multiset_ensures,
    vstd::multiset::group_multiset_axioms,
    vstd::multiset::lemma_multiset_empty_len,
};

/// Relies on chrono::Utc::now and DateTime::timestamp_millis: the current
/// system time in milliseconds since the Unix epoch.
#[verifier::external_body]
fn now_millis() -> (r: i64) {
    chrono::Utc::now().timestamp_millis()
}

/// Whether `ids` holds `id`.
pub open spec fn has_id(ids: Seq<Seq<char>>, id: Seq<char>) -> bool {
    exists|i: int| 0 <= i < ids.len() && ids[i] == id
}

/// The datasets, other than `id`, whose summaries list `id` among their
/// dependencies, in catalog order.
pub open spec fn dependents(ids: Seq<Seq<char>>, ss: Seq<DatasetSummary>, id: Seq<char>) -> Seq<
    Seq<char>,
>
    decreases ids.len(),
{
    if ids.len() == 0 || ss.len() < ids.len() {
        Seq::empty()
    } else {
        let rest = dependents(ids.drop_last(), ss, id);
        let k = ids.len() - 1;
        if ids[k] != id && has_id(ss[k].dependencies.deep_view(), id) {
            rest.push(ids[k])
        } else {
            rest
        }
    }
}

/// The identifiers of a batch of snapshots.
pub open spec fn batch_ids(s: Seq<DatasetSnapshot>) -> Seq<Seq<char>> {
    s.map_values(|x: DatasetSnapshot| x.id@)
}

/// An identifier of the batch that no snapshot of `ordered` carries yet.
pub open spec fn is_pending(batch: Seq<DatasetSnapshot>, ordered: Seq<DatasetSnapshot>, id: Seq<char>) -> bool {
    has_id(batch_ids(batch), id) && !has_id(batch_ids(ordered), id)
}

/// A snapshot none of whose inputs is still pending.
pub open spec fn is_ready(
    batch: Seq<DatasetSnapshot>,
    ordered: Seq<DatasetSnapshot>,
    s: DatasetSnapshot,
) -> bool {
    forall|k: int| 0 <= k < s.deps().len() ==> !is_pending(batch, ordered, #[trigger] s.deps()[k])
}

/// Every snapshot of `ordered` comes after the snapshots of the batch that
/// carry its inputs.
pub open spec fn in_dependency_order(batch: Seq<DatasetSnapshot>, ordered: Seq<DatasetSnapshot>) -> bool {
    forall|i: int| 0 <= i < ordered.len() ==> is_ready(batch, ordered.subrange(0, i), #[trigger] ordered[i])
}

/// Some result before position `i` added `x`.
pub open spec fn added_before(res: Seq<(DatasetIDBuf, Result<(), DomainError>)>, i: int, x: Seq<char>) -> bool {
    exists|j: int| 0 <= j < i && (#[trigger] res[j]).1 is Ok && res[j].0@ == x
}

/// A batch whose snapshots can be ranked so that every snapshot of the batch
/// that carries an input of another has a lower rank: the batch has no cycle.
pub open spec fn ranked(batch: Seq<DatasetSnapshot>, rank: spec_fn(DatasetSnapshot) -> nat) -> bool {
    forall|x: int, y: int, k: int|
        #![trigger batch[x].deps()[k], batch[y]]
        0 <= x < batch.len() && 0 <= y < batch.len() && 0 <= k < batch[x].deps().len()
            && batch[x].deps()[k] == batch[y].id@ ==> rank(batch[y]) < rank(batch[x])
}

/// When a batch has no cycle, ordering it leaves nothing behind: whatever the
/// order of the batch, every snapshot comes out after those carrying its inputs.
pub proof fn lemma_valid_batch_fully_ordered(
    batch: Seq<DatasetSnapshot>,
    ordered: Seq<DatasetSnapshot>,
    stuck: Seq<DatasetSnapshot>,
    rank: spec_fn(DatasetSnapshot) -> nat,
)
    requires
        (ordered + stuck).to_multiset() == batch.to_multiset(),
        forall|i: int| 0 <= i < stuck.len() ==> !is_ready(batch, ordered, #[trigger] stuck[i]),
        ranked(batch, rank),
    ensures
        stuck.len() == 0,
{
    if stuck.len() > 0 {
        lemma_no_stuck_below(batch, ordered, stuck, rank, rank(stuck[0]) + 1);
    }
}

proof fn lemma_no_stuck_below(
    batch: Seq<DatasetSnapshot>,
    ordered: Seq<DatasetSnapshot>,
    stuck: Seq<DatasetSnapshot>,
    rank: spec_fn(DatasetSnapshot) -> nat,
    r: nat,
)
    requires
        (ordered + stuck).to_multiset() == batch.to_multiset(),
        forall|i: int| 0 <= i < stuck.len() ==> !is_ready(batch, ordered, #[trigger] stuck[i]),
        ranked(batch, rank),
    ensures
        forall|i: int| 0 <= i < stuck.len() ==> rank(#[trigger] stuck[i]) >= r,
    decreases r,
{
    if r > 0 {
        lemma_no_stuck_below(batch, ordered, stuck, rank, (r - 1) as nat);
        assert forall|i: int| 0 <= i < stuck.len() implies rank(#[trigger] stuck[i]) >= r by {
            let x = stuck[i];
            assert((ordered + stuck)[ordered.len() + i] == x);
            assert((ordered + stuck).contains(x));
            assert((ordered + stuck).to_multiset().count(x) > 0);
            assert(batch.contains(x));
            let xi = choose|xi: int| 0 <= xi < batch.len() && batch[xi] == x;
            let k = choose|k: int|
                0 <= k < x.deps().len() && is_pending(batch, ordered, #[trigger] x.deps()[k]);
            let d = x.deps()[k];
            let yi = choose|yi: int| 0 <= yi < batch.len() && batch_ids(batch)[yi] == d;
            let y = batch[yi];
            assert(y.id@ == d);
            assert(batch[xi].deps()[k] == batch[yi].id@);
            assert(rank(y) < rank(x));
            assert(batch.to_multiset().count(y) > 0);
            assert((ordered + stuck).contains(y));
            let zi = choose|zi: int| 0 <= zi < (ordered + stuck).len() && (ordered + stuck)[zi] == y;
            if zi < ordered.len() {
                assert(batch_ids(ordered)[zi] == d);
                assert(false);
            } else {
                assert(stuck[zi - ordered.len()] == y);
            }
        }
    }
}

/// Whether some input of `s` belongs to the batch (`all`) and is not yet
/// ordered (`done`).
fn waits_on(s: &DatasetSnapshot, all: &Vec<DatasetIDBuf>, done: &Vec<DatasetIDBuf>) -> (r: bool)
    ensures
        r == exists|k: int|
            0 <= k < s.deps().len() && has_id(all.deep_view(), #[trigger] s.deps()[k]) && !has_id(
                done.deep_view(),
                s.deps()[k],
            ),
{
    match &s.source {
        DatasetSource::Root(_) => false,
        DatasetSource::Derivative(src) => {
            let n = src.inputs.len();
            let mut k: usize = 0;
            while k < n
                invariant
                    n == src.inputs@.len(),
                    s.deps() == src.inputs.deep_view(),
                    0 <= k <= n,
                    forall|m: int|
                        0 <= m < k ==> !(has_id(all.deep_view(), #[trigger] s.deps()[m]) && !has_id(
                            done.deep_view(),
                            s.deps()[m],
                        )),
                decreases n - k,
            {
                if ids_contain(all, &src.inputs[k]) && !ids_contain(done, &src.inputs[k]) {
                    assert(s.deps()[k as int] == src.inputs@[k as int]@);
                    return true;
                }
                k += 1;
            }
            false
        },
    }
}

/// The metadata repository, named for its file-system layout.
pub type MetadataRepositoryFs = MetadataRepositoryImpl;

pub struct MetadataRepositoryImpl {
    workspace_layout: WorkspaceLayout,
    ids: Vec<DatasetIDBuf>,
    chains: Vec<MetadataChain>,
    summaries: Vec<DatasetSummary>,
}

impl MetadataRepositoryImpl {
    pub closed spec fn ids(&self) -> Seq<Seq<char>> {
        self.ids.deep_view()
    }

    pub closed spec fn chains(&self) -> Seq<MetadataChain> {
        self.chains@
    }

    pub closed spec fn summaries(&self) -> Seq<DatasetSummary> {
        self.summaries@
    }

    pub closed spec fn layout(&self) -> WorkspaceLayout {
        self.workspace_layout
    }

    /// Identifiers are unique, and each has a well-formed chain and a summary.
    pub open spec fn wf(&self) -> bool {
        &&& self.chains().len() == self.ids().len()
        &&& self.summaries().len() == self.ids().len()
        &&& forall|i: int, j: int|
            0 <= i < self.ids().len() && 0 <= j < self.ids().len() && i != j ==> self.ids()[i]
                != self.ids()[j]
        &&& forall|i: int| 0 <= i < self.chains().len() ==> (#[trigger] self.chains()[i]).wf()
    }

    pub open spec fn has(&self, id: Seq<char>) -> bool {
        has_id(self.ids(), id)
    }

    /// The position of a present identifier.
    pub open spec fn index_of(&self, id: Seq<char>) -> int {
        choose|i: int| 0 <= i < self.ids().len() && self.ids()[i] == id
    }

    pub open spec fn chain_of(&self, id: Seq<char>) -> MetadataChain {
        self.chains()[self.index_of(id)]
    }

    pub open spec fn summary_of(&self, id: Seq<char>) -> DatasetSummary {
        self.summaries()[self.index_of(id)]
    }

    pub proof fn lemma_index_of(&self, i: int)
        requires
            self.wf(),
            0 <= i < self.ids().len(),
        ensures
            self.index_of(self.ids()[i]) == i,
            self.has(self.ids()[i]),
    {
    }

    pub fn new(workspace_layout: &WorkspaceLayout) -> (r: MetadataRepositoryImpl)
        ensures
            r.wf(),
            r.ids().len() == 0,
            r.layout().datasets_dir@ == workspace_layout.datasets_dir@,
            r.layout().local_volume_dir@ == workspace_layout.local_volume_dir@,
    {
        let r = MetadataRepositoryImpl {
            workspace_layout: WorkspaceLayout {
                datasets_dir: workspace_layout.datasets_dir.clone(),
                local_volume_dir: workspace_layout.local_volume_dir.clone(),
            },
            ids: Vec::new(),
            chains: Vec::new(),
            summaries: Vec::new(),
        };
        assert(r.ids() =~= Seq::<Seq<char>>::empty());
        r
    }

    pub fn workspace_layout(&self) -> (r: &WorkspaceLayout)
        ensures
            *r == self.layout(),
    {
        &self.workspace_layout
    }

    /// The position of `id` in the catalog.
    pub fn find(&self, id: &DatasetIDBuf) -> (r: Option<usize>)
        requires
            self.wf(),
        ensures
            r matches Some(i) ==> i < self.ids().len() && self.ids()[i as int] == id@,
            r is None <==> !self.has(id@),
    {
        let n = self.ids.len();
        let mut i: usize = 0;
        while i < n
            invariant
                n == self.ids().len(),
                0 <= i <= n,
                forall|j: int| 0 <= j < i ==> self.ids()[j] != id@,
            decreases n - i,
        {
            if self.ids[i].same_as(id) {
                assert(self.ids()[i as int] == id@);
                return Some(i);
            }
            i += 1;
        }
        None
    }

    pub fn dataset_exists(&self, id: &DatasetIDBuf) -> (r: bool)
        requires
            self.wf(),
        ensures
            r == self.has(id@),
    {
        self.find(id).is_some()
    }

    /// The directory that holds a dataset's chain and summary.
    pub fn get_dataset_metadata_dir(&self, id: &DatasetIDBuf) -> (r: String)
        ensures
            r@ == joined(self.layout().datasets_dir@, id@),
    {
        join(self.workspace_layout.datasets_dir.as_str(), id.as_str())
    }

    /// The identifiers of all datasets, in the order they were added.
    pub fn list_datasets(&self) -> (r: Vec<DatasetIDBuf>)
        ensures
            r.deep_view() == self.ids(),
    {
        copy_ids(&self.ids)
    }

    pub fn get_metadata_chain(&self, id: &DatasetIDBuf) -> (r: Result<&MetadataChain, DomainError>)
        requires
            self.wf(),
        ensures
            r is Ok <==> self.has(id@),
            r matches Ok(c) ==> *c == self.chain_of(id@),
            r matches Ok(c) ==> c.wf(),
            r matches Err(DomainError::DoesNotExist { kind, id: e }) ==> e@ == id@,
            r is Err ==> r matches Err(DomainError::DoesNotExist { .. }),
    {
        match self.find(id) {
            Some(i) => {
                proof {
                    self.lemma_index_of(i as int);
                }
                Ok(&self.chains[i])
            },
            None => Err(DomainError::does_not_exist(ResourceKind::Dataset, id.as_str().to_owned())),
        }
    }

    pub fn get_summary(&self, id: &DatasetIDBuf) -> (r: Result<&DatasetSummary, DomainError>)
        requires
            self.wf(),
        ensures
            r is Ok <==> self.has(id@),
            r matches Ok(s) ==> *s == self.summary_of(id@),
            r matches Err(DomainError::DoesNotExist { kind, id: e }) ==> e@ == id@,
            r is Err ==> r matches Err(DomainError::DoesNotExist { .. }),
    {
        match self.find(id) {
            Some(i) => {
                proof {
                    self.lemma_index_of(i as int);
                }
                Ok(&self.summaries[i])
            },
            None => Err(DomainError::does_not_exist(ResourceKind::Dataset, id.as_str().to_owned())),
        }
    }

    /// Replaces the summary of a dataset.
    pub fn update_summary(&mut self, id: &DatasetIDBuf, summary: DatasetSummary) -> (r: Result<
        (),
        DomainError,
    >)
        requires
            old(self).wf(),
        ensures
            final(self).wf(),
            r is Ok <==> old(self).has(id@),
            final(self).ids() == old(self).ids(),
            final(self).chains() == old(self).chains(),
            final(self).layout() == old(self).layout(),
            r is Ok ==> exists|i: int|
                0 <= i < old(self).ids().len() && old(self).ids()[i] == id@
                    && final(self).summaries() == old(self).summaries().update(i, summary),
            r is Err ==> final(self).summaries() == old(self).summaries(),
            r matches Err(DomainError::DoesNotExist { kind, id: e }) ==> e@ == id@,
            r is Err ==> r matches Err(DomainError::DoesNotExist { .. }),
    {
        match self.find(id) {
            Some(i) => {
                self.summaries.set(i, summary);
                Ok(())
            },
            None => Err(DomainError::does_not_exist(ResourceKind::Dataset, id.as_str().to_owned())),
        }
    }

    /// Puts back a stored dataset: its chain and its summary.
    pub fn restore(&mut self, id: DatasetIDBuf, chain: MetadataChain, summary: DatasetSummary) -> (r: Result<
        (),
        DomainError,
    >)
        requires
            old(self).wf(),
            chain.wf(),
        ensures
            final(self).wf(),
            final(self).layout() == old(self).layout(),
            r is Err <==> old(self).has(id@),
            r is Err ==> *final(self) == *old(self),
            r matches Err(DomainError::AlreadyExists { id: e, .. }) ==> e@ == id@,
            r is Err ==> r matches Err(DomainError::AlreadyExists { .. }),
            r is Ok ==> final(self).ids() == old(self).ids().push(id@) && final(self).chains()
                == old(self).chains().push(chain) && final(self).summaries() == old(
                self,
            ).summaries().push(summary),
    {
        if self.dataset_exists(&id) {
            return Err(DomainError::already_exists(ResourceKind::Dataset, id.as_str().to_owned()));
        }
        let ghost id_view = id@;
        let ghost old_ids = self.ids();
        self.ids.push(id);
        self.chains.push(chain);
        self.summaries.push(summary);
        assert(self.ids() =~= old_ids.push(id_view));
        assert forall|j: int| 0 <= j < self.chains().len() implies (#[trigger] self.chains()[j]).wf() by {
            if j < old(self).chains().len() {
                assert(self.chains()[j] == old(self).chains()[j]);
            }
        }
        Ok(())
    }

    /// The number of datasets.
    pub fn ids_len(&self) -> (r: usize)
        requires
            self.wf(),
        ensures
            r == self.ids().len(),
    {
        self.ids.len()
    }

    pub fn summary_at(&self, i: usize) -> (r: &DatasetSummary)
        requires
            self.wf(),
            i < self.ids().len(),
        ensures
            *r == self.summaries()[i as int],
            *r == self.summary_of(self.ids()[i as int]),
    {
        proof {
            self.lemma_index_of(i as int);
        }
        &self.summaries[i]
    }

    pub fn id_at(&self, i: usize) -> (r: &DatasetIDBuf)
        requires
            self.wf(),
            i < self.ids().len(),
        ensures
            r@ == self.ids()[i as int],
    {
        &self.ids[i]
    }

    pub fn chain_at(&self, i: usize) -> (r: &MetadataChain)
        requires
            self.wf(),
            i < self.ids().len(),
        ensures
            *r == self.chains()[i as int],
            r.wf(),
    {
        &self.chains[i]
    }

    /// Appends a block to a dataset's chain; the block must follow its head.
    pub fn append_block(&mut self, i: usize, block: MetadataBlock) -> (r: String)
        requires
            old(self).wf(),
            i < old(self).ids().len(),
            block.prev_block_hash@ == old(self).chains()[i as int].head().block_hash@,
            block.system_time >= old(self).chains()[i as int].head().system_time,
        ensures
            final(self).wf(),
            final(self).ids() == old(self).ids(),
            final(self).summaries() == old(self).summaries(),
            final(self).layout() == old(self).layout(),
            final(self).chains().len() == old(self).chains().len(),
            forall|j: int|
                0 <= j < old(self).chains().len() && j != i ==> final(self).chains()[j] == old(
                    self,
                ).chains()[j],
            final(self).chains()[i as int]@ == old(self).chains()[i as int]@.push(
                final(self).chains()[i as int].head(),
            ),
            final(self).chains()[i as int].head().block_hash@ == r@,
            final(self).chains()[i as int].head() == with_hash(
                block,
                final(self).chains()[i as int].head().block_hash,
            ),
            final(self).chains()[i as int].head().prev_block_hash == block.prev_block_hash,
            final(self).chains()[i as int].head().system_time == block.system_time,
            final(self).chains()[i as int].head().output_slice == block.output_slice,
    {
        let mut chain = self.chains.remove(i);
        let h = chain.append(block);
        self.chains.insert(i, chain);
        assert forall|j: int| 0 <= j < self.chains().len() implies (#[trigger] self.chains()[j]).wf() by {
            if j != i {
                assert(self.chains()[j] == old(self).chains()[j]);
            }
        }
        h
    }

    /// Orders a batch so that every snapshot follows those that carry its
    /// inputs: the queue is walked repeatedly, each snapshot taken once none of
    /// its inputs is still pending and sent to the back otherwise. A full walk
    /// that takes nothing ends the work; what is left (snapshots waiting on a
    /// cycle) comes back second.
    pub fn sort_snapshots_in_dependency_order(&self, snapshots: Vec<DatasetSnapshot>) -> (r: (
        Vec<DatasetSnapshot>,
        Vec<DatasetSnapshot>,
    ))
        ensures
            (r.0@ + r.1@).to_multiset() == snapshots@.to_multiset(),
            in_dependency_order(snapshots@, r.0@),
            forall|i: int| 0 <= i < r.1@.len() ==> !is_ready(snapshots@, r.0@, #[trigger] r.1@[i]),
            in_dependency_order(snapshots@, snapshots@) ==> r.0@ == snapshots@ && r.1@.len() == 0,
    {
        let ghost batch = snapshots@;
        let mut all: Vec<DatasetIDBuf> = Vec::new();
        let n = snapshots.len();
        let mut k: usize = 0;
        while k < n
            invariant
                n == batch.len(),
                snapshots@ == batch,
                0 <= k <= n,
                all@.len() == k,
                forall|j: int| 0 <= j < k ==> (#[trigger] all@[j])@ == batch[j].id@,
            decreases n - k,
        {
            all.push(snapshots[k].id.copied());
            k += 1;
        }
        assert(all.deep_view() =~= batch_ids(batch));
        let mut ordered: Vec<DatasetSnapshot> = Vec::new();
        let mut done: Vec<DatasetIDBuf> = Vec::new();
        let mut queue = snapshots;
        let ghost in_order = in_dependency_order(batch, batch);
        let ghost mut first = true;
        assert(ordered@.to_multiset() =~= Multiset::<DatasetSnapshot>::empty());
        assert(ordered@.to_multiset().add(queue@.to_multiset()) =~= batch.to_multiset());
        assert(done.deep_view() =~= batch_ids(ordered@));
        while queue.len() > 0
            invariant
                in_order == in_dependency_order(batch, batch),
                in_order && first ==> ordered@.len() == 0 && queue@ == batch,
                in_order && !first ==> ordered@ == batch && queue@.len() == 0,
                batch == snapshots@,
                all.deep_view() == batch_ids(batch),
                done.deep_view() == batch_ids(ordered@),
                ordered@.to_multiset().add(queue@.to_multiset()) == batch.to_multiset(),
                in_dependency_order(batch, ordered@),
            decreases queue@.len(),
        {
            let ghost start = ordered@;
            let ghost start_len = queue@.len();
            let mut next: Vec<DatasetSnapshot> = Vec::new();
            let mut progressed = false;
            assert(next@.to_multiset() =~= Multiset::<DatasetSnapshot>::empty());
            assert(ordered@.to_multiset().add(queue@.to_multiset()).add(next@.to_multiset())
                =~= batch.to_multiset());
            while queue.len() > 0
                invariant
                    in_order == in_dependency_order(batch, batch),
                    in_order && first ==> ordered@ + queue@ == batch && next@.len() == 0,
                    in_order && first ==> (progressed || ordered@.len() == 0),
                    in_order && first ==> start_len == batch.len(),
                    batch == snapshots@,
                    all.deep_view() == batch_ids(batch),
                    done.deep_view() == batch_ids(ordered@),
                    ordered@.to_multiset().add(queue@.to_multiset()).add(next@.to_multiset())
                        == batch.to_multiset(),
                    in_dependency_order(batch, ordered@),
                    progressed ==> next@.len() + queue@.len() < start_len,
                    !progressed ==> next@.len() + queue@.len() == start_len,
                    !progressed ==> ordered@ == start,
                    !progressed ==> forall|i: int|
                        0 <= i < next@.len() ==> !is_ready(batch, ordered@, #[trigger] next@[i]),
                decreases queue@.len(),
            {
                let ghost q = queue@;
                let s = queue.remove(0);
                assert(q.remove(0) == queue@);
                assert(q[0] == s);
                assert(q.contains(s));
                proof {
                    vstd::seq_lib::to_multiset_remove(q, 0);
                }
                proof {
                    if in_order && first {
                        let i = ordered@.len() as int;
                        assert(ordered@ =~= batch.subrange(0, i));
                        assert(s == batch[i]);
                        assert(is_ready(batch, batch.subrange(0, i), batch[i]));
                    }
                }
                if waits_on(&s, &all, &done) {
                    let ghost nb = next@;
                    next.push(s);
                    assert(next@ == nb.push(s));
                    proof {
                        vstd::seq_lib::to_multiset_build(nb, next@[nb.len() as int]);
                    }
                    assert(!is_ready(batch, ordered@, s));
                    assert forall|i: int| 0 <= i < next@.len() && !progressed implies !is_ready(
                        batch,
                        ordered@,
                        #[trigger] next@[i],
                    ) by {
                        if i < nb.len() {
                            assert(next@[i] == nb[i]);
                        }
                    }
                    assert(ordered@.to_multiset().add(queue@.to_multiset()).add(next@.to_multiset())
                        =~= batch.to_multiset());
                } else {
                    let ghost ob = ordered@;
                    let ghost db = done@;
                    assert(is_ready(batch, ob, s));
                    assert(done.deep_view().len() == db.len());
                    assert(batch_ids(ob).len() == ob.len());
                    assert(db.len() == ob.len());
                    assert forall|j: int| 0 <= j < db.len() implies db[j]@ == ob[j].id@ by {
                        assert(done.deep_view()[j] == batch_ids(ob)[j]);
                    }
                    done.push(s.id.copied());
                    ordered.push(s);
                    assert(ordered@ == ob.push(s));
                    proof {
                        vstd::seq_lib::to_multiset_build(ob, ordered@[ob.len() as int]);
                    }
                    assert(done.deep_view() =~= batch_ids(ordered@)) by {
                        assert forall|j: int| 0 <= j < done@.len() implies done.deep_view()[j]
                            == batch_ids(ordered@)[j] by {
                            if j < db.len() {
                                assert(done@[j] == db[j]);
                            }
                        }
                    }
                    assert forall|i: int| 0 <= i < ordered@.len() implies is_ready(
                        batch,
                        ordered@.subrange(0, i),
                        #[trigger] ordered@[i],
                    ) by {
                        if i < ob.len() {
                            assert(ordered@.subrange(0, i) =~= ob.subrange(0, i));
                        } else {
                            assert(ordered@.subrange(0, i) =~= ob);
                        }
                    }
                    progressed = true;
                    assert(in_order && first ==> ordered@ + queue@ =~= batch);
                    assert(ordered@.to_multiset().add(queue@.to_multiset()).add(next@.to_multiset())
                        =~= batch.to_multiset());
                }
            }
            assert(queue@ =~= Seq::<DatasetSnapshot>::empty());
            assert(queue@.to_multiset() =~= Multiset::<DatasetSnapshot>::empty());
            assert(in_order && first ==> ordered@ =~= batch);
            if !progressed {
                proof {
                    vstd::seq_lib::lemma_multiset_commutative(ordered@, next@);
                }
                assert(ordered@.to_multiset().add(next@.to_multiset()) =~= batch.to_multiset());
                return (ordered, next);
            }
            proof {
                if in_order && first {
                    assert(ordered@ =~= batch);
                }
                first = false;
            }
            queue = next;
            assert(ordered@.to_multiset().add(queue@.to_multiset()) =~= batch.to_multiset());
        }
        assert(queue@ =~= Seq::<DatasetSnapshot>::empty());
        assert(queue@.to_multiset() =~= Multiset::<DatasetSnapshot>::empty());
        let stuck: Vec<DatasetSnapshot> = Vec::new();
        assert(stuck@.to_multiset() =~= Multiset::<DatasetSnapshot>::empty());
        proof {
            vstd::seq_lib::lemma_multiset_commutative(ordered@, stuck@);
        }
        assert(ordered@.to_multiset().add(stuck@.to_multiset()) =~= batch.to_multiset());
        (ordered, stuck)
    }

    /// Adds a batch of datasets in dependency order. A snapshot that waits on
    /// a cycle is not added and gets a circular-dependency error.
    pub fn add_datasets(&mut self, snapshots: Vec<DatasetSnapshot>) -> (r: Vec<
        (DatasetIDBuf, Result<(), DomainError>),
    >)
        requires
            old(self).wf(),
        ensures
            final(self).wf(),
            r@.len() == snapshots@.len(),
            forall|i: int| 0 <= i < r@.len() && r@[i].1 is Ok ==> final(self).has(#[trigger] r@[i].0@),
            forall|i: int| 0 <= i < old(self).ids().len() ==> final(self).has(#[trigger] old(self).ids()[i]),
            exists|ordered: Seq<DatasetSnapshot>, stuck: Seq<DatasetSnapshot>|
                {
                    &&& (#[trigger] (ordered + stuck)).to_multiset() == snapshots@.to_multiset()
                    &&& in_dependency_order(snapshots@, ordered)
                    &&& forall|i: int| 0 <= i < stuck.len() ==> !is_ready(snapshots@, ordered, #[trigger] stuck[i])
                    &&& forall|i: int| 0 <= i < r@.len() ==> (#[trigger] r@[i]).0@ == (ordered + stuck)[i].id@
                    &&& forall|i: int|
                        ordered.len() <= i < r@.len() ==> ((#[trigger] r@[i]).1 matches Err(
                            DomainError::CircularDependency { .. },
                        ))
                    &&& forall|i: int|
                        0 <= i < ordered.len() ==> ((#[trigger] r@[i]).1 is Ok <==> {
                            &&& !old(self).has(ordered[i].id@)
                            &&& !added_before(r@, i, ordered[i].id@)
                            &&& forall|k: int|
                                0 <= k < ordered[i].deps().len() ==> old(self).has(
                                    #[trigger] ordered[i].deps()[k],
                                ) || added_before(r@, i, ordered[i].deps()[k])
                        })
                },
            forall|x: Seq<char>| #[trigger] final(self).has(x) <==> old(self).has(x) || added_before(r@, r@.len() as int, x),
    {
        let ghost b = snapshots@;
        let ghost snapshots_view = snapshots@;
        let ghost n0 = snapshots@.len();
        assert(b.to_multiset().len() == n0);
        let (ordered, stuck) = self.sort_snapshots_in_dependency_order(snapshots);
        assert((ordered@ + stuck@).to_multiset().len() == (ordered@ + stuck@).len());
        assert(ordered@.len() + stuck@.len() == n0);
        let ghost ord = ordered@;
        let ghost stk = stuck@;
        let mut results: Vec<(DatasetIDBuf, Result<(), DomainError>)> = Vec::new();
        let mut queue = ordered;
        let ghost total = queue@.len();
        while queue.len() > 0
            invariant
                self.wf(),
                results@.len() + queue@.len() == total,
                total == ord.len(),
                queue@ == ord.subrange(results@.len() as int, total as int),
                forall|i: int| 0 <= i < results@.len() ==> (#[trigger] results@[i]).0@ == ord[i].id@,
                forall|i: int|
                    0 <= i < results@.len() && results@[i].1 is Ok ==> self.has(#[trigger] results@[i].0@),
                forall|i: int| 0 <= i < old(self).ids().len() ==> self.has(#[trigger] old(self).ids()[i]),
                forall|x: Seq<char>| #[trigger] self.has(x) <==> old(self).has(x) || added_before(results@, results@.len() as int, x),
                forall|i: int|
                    0 <= i < results@.len() ==> ((#[trigger] results@[i]).1 is Ok <==> {
                        &&& !old(self).has(ord[i].id@)
                        &&& !added_before(results@, i, ord[i].id@)
                        &&& forall|k: int|
                            0 <= k < ord[i].deps().len() ==> old(self).has(#[trigger] ord[i].deps()[k])
                                || added_before(results@, i, ord[i].deps()[k])
                    }),
            decreases queue@.len(),
        {
            let ghost qb = queue@;
            let s = queue.remove(0);
            assert(queue@ =~= ord.subrange(results@.len() as int + 1, total as int));
            assert(s == ord[results@.len() as int]);
            let id = s.id.copied();
            let ghost before = *self;
            assert(forall|y: Seq<char>| #[trigger] before.has(y) <==> old(self).has(y) || added_before(results@, results@.len() as int, y));
            let ghost snap = s;
            let res = self.add_dataset(s);
            assert forall|x: Seq<char>| before.has(x) implies self.has(x) by {
                if res is Ok {
                    let j = choose|j: int| 0 <= j < before.ids().len() && before.ids()[j] == x;
                    assert(self.ids()[j] == x);
                }
            }
            if res.is_ok() {
                assert(self.ids()[self.ids().len() - 1] == id@);
            }
            let ghost rb = results@;
            let ghost n = rb.len() as int;
            let ghost ok = res is Ok;
            results.push((id, res));
            proof {
                assert forall|x: Seq<char>, i: int| 0 <= i <= n implies added_before(results@, i, x)
                    == added_before(rb, i, x) by {
                    if added_before(results@, i, x) {
                        let j = choose|j: int| 0 <= j < i && (#[trigger] results@[j]).1 is Ok && results@[j].0@ == x;
                        assert(rb[j] == results@[j]);
                    }
                    if added_before(rb, i, x) {
                        let j = choose|j: int| 0 <= j < i && (#[trigger] rb[j]).1 is Ok && rb[j].0@ == x;
                        assert(rb[j] == results@[j]);
                    }
                }
                assert forall|x: Seq<char>| added_before(results@, n + 1, x) <==> (added_before(rb, n, x)
                    || (ok && x == snap.id@)) by {
                    if added_before(results@, n + 1, x) {
                        let j = choose|j: int| 0 <= j < n + 1 && (#[trigger] results@[j]).1 is Ok && results@[j].0@ == x;
                        if j < n {
                            assert(rb[j] == results@[j]);
                        }
                    }
                    if added_before(rb, n, x) {
                        let j = choose|j: int| 0 <= j < n && (#[trigger] rb[j]).1 is Ok && rb[j].0@ == x;
                        assert(rb[j] == results@[j]);
                    }
                    if ok && x == snap.id@ {
                        assert(results@[n].1 is Ok && results@[n].0@ == x);
                    }
                }
                assert forall|x: Seq<char>| #[trigger] self.has(x) <==> old(self).has(x) || added_before(
                    results@,
                    results@.len() as int,
                    x,
                ) by {
                    assert(before.has(x) <==> old(self).has(x) || added_before(rb, n, x));
                    if ok {
                        assert(self.ids() == before.ids().push(snap.id@));
                        if self.has(x) && x != snap.id@ {
                            let j = choose|j: int| 0 <= j < self.ids().len() && self.ids()[j] == x;
                            assert(j < before.ids().len());
                            assert(before.ids()[j] == x);
                        }
                        if before.has(x) {
                            let j = choose|j: int| 0 <= j < before.ids().len() && before.ids()[j] == x;
                            assert(self.ids()[j] == x);
                        }
                        if x == snap.id@ {
                            assert(self.ids()[self.ids().len() - 1] == x);
                        }
                    } else {
                        assert(*self == before);
                    }
                }
                assert forall|i: int| 0 <= i < results@.len() implies ((#[trigger] results@[i]).1 is Ok <==> {
                    &&& !old(self).has(ord[i].id@)
                    &&& !added_before(results@, i, ord[i].id@)
                    &&& forall|k: int|
                        0 <= k < ord[i].deps().len() ==> old(self).has(#[trigger] ord[i].deps()[k])
                            || added_before(results@, i, ord[i].deps()[k])
                }) by {
                    if i < n {
                        assert(results@[i] == rb[i]);
                    } else {
                        assert(ord[i] == snap);
                        assert forall|y: Seq<char>| before.has(y) <==> old(self).has(y) || added_before(rb, n, y) by {}
                    }
                }
            }
        }
        let m = stuck.len();
        let mut k: usize = 0;
        while k < m
            invariant
                self.wf(),
                m == stuck@.len(),
                stk == stuck@,
                total == ord.len(),
                0 <= k <= m,
                results@.len() == total + k,
                forall|i: int| 0 <= i < results@.len() ==> (#[trigger] results@[i]).0@ == (ord + stk)[i].id@,
                forall|i: int|
                    total <= i < results@.len() ==> (#[trigger] results@[i]).1 matches Err(
                        DomainError::CircularDependency { .. },
                    ),
                forall|x: Seq<char>| #[trigger] self.has(x) <==> old(self).has(x) || added_before(results@, results@.len() as int, x),
                forall|i: int|
                    0 <= i < total ==> ((#[trigger] results@[i]).1 is Ok <==> {
                        &&& !old(self).has(ord[i].id@)
                        &&& !added_before(results@, i, ord[i].id@)
                        &&& forall|k: int|
                            0 <= k < ord[i].deps().len() ==> old(self).has(#[trigger] ord[i].deps()[k])
                                || added_before(results@, i, ord[i].deps()[k])
                    }),
                forall|i: int|
                    0 <= i < results@.len() && results@[i].1 is Ok ==> self.has(#[trigger] results@[i].0@),
                forall|i: int| 0 <= i < old(self).ids().len() ==> self.has(#[trigger] old(self).ids()[i]),
            decreases m - k,
        {
            let id = stuck[k].id.copied();
            let e = DomainError::CircularDependency {
                kind: ResourceKind::Dataset,
                id: id.as_str().to_owned(),
            };
            let ghost rb = results@;
            let ghost n = rb.len() as int;
            results.push((id, Err(e)));
            proof {
                assert forall|x: Seq<char>, i: int| 0 <= i <= n + 1 implies added_before(results@, i, x)
                    == added_before(rb, if i <= n { i } else { n }, x) by {
                    if added_before(results@, i, x) {
                        let j = choose|j: int| 0 <= j < i && (#[trigger] results@[j]).1 is Ok && results@[j].0@ == x;
                        assert(j < n);
                        assert(rb[j] == results@[j]);
                    }
                    if added_before(rb, if i <= n { i } else { n }, x) {
                        let j = choose|j: int| 0 <= j < (if i <= n { i } else { n }) && (#[trigger] rb[j]).1 is Ok && rb[j].0@ == x;
                        assert(rb[j] == results@[j]);
                    }
                }
                assert forall|i: int| 0 <= i < total implies (#[trigger] results@[i]) == rb[i] by {}
            }
            k += 1;
        }
        assert(in_dependency_order(snapshots_view, ord));
        assert((ord + stk).to_multiset() == snapshots_view.to_multiset());
        results
    }

    /// Adds a dataset, its genesis block stamped with the current time.
    pub fn add_dataset(&mut self, snapshot: DatasetSnapshot) -> (r: Result<(), DomainError>)
        requires
            old(self).wf(),
        ensures
            final(self).wf(),
            final(self).layout() == old(self).layout(),
            r is Err ==> *final(self) == *old(self),
            old(self).has(snapshot.id@) <==> r matches Err(DomainError::AlreadyExists { .. }),
            r matches Err(DomainError::AlreadyExists { kind, id }) ==> id@ == snapshot.id@,
            !old(self).has(snapshot.id@) && (exists|k: int|
                0 <= k < snapshot.deps().len() && !old(self).has(#[trigger] snapshot.deps()[k]))
                <==> r matches Err(DomainError::MissingReference { .. }),
            r matches Err(DomainError::MissingReference { from_id, to_id, .. }) ==> from_id@
                == snapshot.id@ && exists|k: int|
                0 <= k < snapshot.deps().len() && snapshot.deps()[k] == to_id@ && !old(self).has(
                    to_id@,
                ) && forall|m: int| 0 <= m < k ==> old(self).has(#[trigger] snapshot.deps()[m]),
            r is Ok || r matches Err(DomainError::AlreadyExists { .. }) || r matches Err(
                DomainError::MissingReference { .. },
            ),
            r is Ok ==> final(self).ids() == old(self).ids().push(snapshot.id@),
            r is Ok ==> final(self).chains().drop_last() == old(self).chains(),
            r is Ok ==> final(self).summaries().drop_last() == old(self).summaries(),
            r is Ok ==> ({
                let c = final(self).chains().last();
                let b = c@[0];
                &&& c@.len() == 1
                &&& b.prev_block_hash@ == Seq::<char>::empty()
                &&& b.source == Some(snapshot.source)
                &&& b.output_slice is None
                &&& b.output_watermark is None
                &&& b.input_slices is None
            }),
            r is Ok ==> ({
                let s = final(self).summaries().last();
                &&& s.id@ == snapshot.id@
                &&& s.kind == (if snapshot.source is Root {
                    DatasetKind::Root
                } else {
                    DatasetKind::Derivative
                })
                &&& s.dependencies.deep_view() == snapshot.deps()
                &&& s.last_pulled is None
                &&& s.num_records == 0
                &&& s.data_size == 0
                &&& match snapshot.vocab {
                    Some(v) => s.vocab.same(&v),
                    None => s.vocab.system_time_column is None && s.vocab.event_time_column is None,
                }
            }),
    {
        let t = now_millis();
        self.add_dataset_at(snapshot, t)
    }

    /// Adds a dataset whose genesis block carries `system_time`: fails when the
    /// identifier is taken or when an input of a derivative is missing.
    pub fn add_dataset_at(&mut self, snapshot: DatasetSnapshot, system_time: i64) -> (r: Result<
        (),
        DomainError,
    >)
        requires
            old(self).wf(),
        ensures
            final(self).wf(),
            final(self).layout() == old(self).layout(),
            r is Err ==> *final(self) == *old(self),
            old(self).has(snapshot.id@) <==> r matches Err(DomainError::AlreadyExists { .. }),
            r matches Err(DomainError::AlreadyExists { kind, id }) ==> id@ == snapshot.id@,
            !old(self).has(snapshot.id@) && (exists|k: int|
                0 <= k < snapshot.deps().len() && !old(self).has(#[trigger] snapshot.deps()[k]))
                <==> r matches Err(DomainError::MissingReference { .. }),
            r matches Err(DomainError::MissingReference { from_id, to_id, .. }) ==> from_id@
                == snapshot.id@ && exists|k: int|
                0 <= k < snapshot.deps().len() && snapshot.deps()[k] == to_id@ && !old(self).has(
                    to_id@,
                ) && forall|m: int| 0 <= m < k ==> old(self).has(#[trigger] snapshot.deps()[m]),
            r is Ok || r matches Err(DomainError::AlreadyExists { .. }) || r matches Err(
                DomainError::MissingReference { .. },
            ),
            r is Ok ==> final(self).ids() == old(self).ids().push(snapshot.id@),
            r is Ok ==> final(self).chains().drop_last() == old(self).chains(),
            r is Ok ==> final(self).summaries().drop_last() == old(self).summaries(),
            r is Ok ==> ({
                let c = final(self).chains().last();
                let b = c@[0];
                &&& c@.len() == 1
                &&& b.prev_block_hash@ == Seq::<char>::empty()
                &&& b.system_time == system_time
                &&& b.source == Some(snapshot.source)
                &&& b.output_slice is None
                &&& b.output_watermark is None
                &&& b.input_slices is None
            }),
            r is Ok ==> ({
                let s = final(self).summaries().last();
                &&& s.id@ == snapshot.id@
                &&& s.kind == (if snapshot.source is Root {
                    DatasetKind::Root
                } else {
                    DatasetKind::Derivative
                })
                &&& s.dependencies.deep_view() == snapshot.deps()
                &&& s.last_pulled is None
                &&& s.num_records == 0
                &&& s.data_size == 0
                &&& match snapshot.vocab {
                    Some(v) => s.vocab.same(&v),
                    None => s.vocab.system_time_column is None && s.vocab.event_time_column is None,
                }
            }),
    {
        if self.dataset_exists(&snapshot.id) {
            return Err(
                DomainError::already_exists(ResourceKind::Dataset, snapshot.id.as_str().to_owned()),
            );
        }
        let (kind, dependencies) = match &snapshot.source {
            DatasetSource::Derivative(src) => {
                let n = src.inputs.len();
                let mut k: usize = 0;
                while k < n
                    invariant
                        n == src.inputs@.len(),
                        snapshot.deps() == src.inputs.deep_view(),
                        0 <= k <= n,
                        self.wf(),
                        *self == *old(self),
                        !self.has(snapshot.id@),
                        forall|m: int| 0 <= m < k ==> self.has(#[trigger] snapshot.deps()[m]),
                    decreases n - k,
                {
                    if !self.dataset_exists(&src.inputs[k]) {
                        assert(snapshot.deps()[k as int] == src.inputs[k as int]@);
                        return Err(
                            DomainError::missing_reference(
                                ResourceKind::Dataset,
                                snapshot.id.as_str().to_owned(),
                                ResourceKind::Dataset,
                                src.inputs[k].as_str().to_owned(),
                            ),
                        );
                    }
                    k += 1;
                }
                (DatasetKind::Derivative, copy_ids(&src.inputs))
            },
            DatasetSource::Root(_) => {
                let v: Vec<DatasetIDBuf> = Vec::new();
                assert(v.deep_view() =~= snapshot.deps());
                (DatasetKind::Root, v)
            },
        };
        let id = snapshot.id;
        let vocab = match snapshot.vocab {
            Some(v) => v,
            None => DatasetVocabulary::default(),
        };
        let first_block = MetadataBlock {
            block_hash: String::new(),
            prev_block_hash: String::new(),
            system_time,
            source: Some(snapshot.source),
            output_slice: None,
            output_watermark: None,
            input_slices: None,
        };
        let (chain, _) = MetadataChain::create(first_block);
        let summary = DatasetSummary {
            id: id.copied(),
            kind,
            dependencies,
            last_pulled: None,
            num_records: 0,
            data_size: 0,
            vocab,
        };
        let ghost old_ids = self.ids();
        self.ids.push(id);
        self.chains.push(chain);
        self.summaries.push(summary);
        assert(self.ids() =~= old_ids.push(snapshot.id@));
        assert(self.chains().drop_last() =~= old(self).chains());
        assert(self.summaries().drop_last() =~= old(self).summaries());
        assert forall|j: int| 0 <= j < self.chains().len() implies (#[trigger] self.chains()[j]).wf() by {
            if j < old(self).chains().len() {
                assert(self.chains()[j] == old(self).chains()[j]);
            }
        }
        Ok(())
    }

    /// Removes a dataset from the catalog. Fails when it does not exist, or when
    /// other datasets depend on it; those are named in the error.
    pub fn delete_dataset(&mut self, id: &DatasetIDBuf) -> (r: Result<(), DomainError>)
        requires
            old(self).wf(),
        ensures
            final(self).wf(),
            final(self).layout() == old(self).layout(),
            r is Err ==> *final(self) == *old(self),
            !old(self).has(id@) <==> r matches Err(DomainError::DoesNotExist { .. }),
            r matches Err(DomainError::DoesNotExist { id: e, .. }) ==> e@ == id@,
            old(self).has(id@) && dependents(old(self).ids(), old(self).summaries(), id@).len() > 0
                <==> r matches Err(DomainError::DanglingReference { .. }),
            r matches Err(DomainError::DanglingReference { from_kinds_ids, to_kind, to_id }) ==> {
                &&& to_id@ == id@
                &&& from_kinds_ids@.map_values(|p: (ResourceKind, String)| p.1@) == dependents(
                    old(self).ids(),
                    old(self).summaries(),
                    id@,
                )
            },
            r is Ok || r matches Err(DomainError::DoesNotExist { .. }) || r matches Err(
                DomainError::DanglingReference { .. },
            ),
            r is Ok ==> exists|i: int|
                0 <= i < old(self).ids().len() && old(self).ids()[i] == id@ && final(self).ids()
                    == old(self).ids().remove(i) && final(self).chains() == old(self).chains().remove(
                    i,
                ) && final(self).summaries() == old(self).summaries().remove(i),
    {
        let idx = match self.find(id) {
            Some(i) => i,
            None => {
                return Err(
                    DomainError::does_not_exist(ResourceKind::Dataset, id.as_str().to_owned()),
                );
            },
        };
        let n = self.ids.len();
        let mut from: Vec<(ResourceKind, String)> = Vec::new();
        let mut k: usize = 0;
        while k < n
            invariant
                n == self.ids().len(),
                self.wf(),
                *self == *old(self),
                0 <= k <= n,
                from@.map_values(|p: (ResourceKind, String)| p.1@) == dependents(
                    self.ids().subrange(0, k as int),
                    self.summaries(),
                    id@,
                ),
            decreases n - k,
        {
            let ghost pre = self.ids().subrange(0, k as int);
            let ghost next = self.ids().subrange(0, k + 1);
            assert(next.drop_last() =~= pre);
            if !self.ids[k].same_as(id) && ids_contain(&self.summaries[k].dependencies, id) {
                let ghost before = from@;
                from.push((ResourceKind::Dataset, self.ids[k].as_str().to_owned()));
                assert(from@.map_values(|p: (ResourceKind, String)| p.1@) =~= before.map_values(
                    |p: (ResourceKind, String)| p.1@,
                ).push(self.ids()[k as int]));
            }
            k += 1;
        }
        assert(self.ids().subrange(0, n as int) =~= self.ids());
        if from.len() > 0 {
            return Err(
                DomainError::dangling_reference(from, ResourceKind::Dataset, id.as_str().to_owned()),
            );
        }
        let ghost old_ids = self.ids@;
        self.ids.remove(idx);
        self.chains.remove(idx);
        self.summaries.remove(idx);
        assert(self.ids() =~= old(self).ids().remove(idx as int));
        assert forall|i: int, j: int|
            0 <= i < self.ids().len() && 0 <= j < self.ids().len() && i != j implies self.ids()[i]
            != self.ids()[j] by {
            let oi = if i < idx { i } else { i + 1 };
            let oj = if j < idx { j } else { j + 1 };
            assert(self.ids()[i] == old(self).ids()[oi]);
            assert(self.ids()[j] == old(self).ids()[oj]);
        }
        assert forall|j: int| 0 <= j < self.chains().len() implies (#[trigger] self.chains()[j]).wf() by {
            let oj = if j < idx { j } else { j + 1 };
            assert(self.chains()[j] == old(self).chains()[oj]);
        }
        Ok(())
    }
}

/// Whether `id` is among `ids`.
pub fn ids_contain(ids: &Vec<DatasetIDBuf>, id: &DatasetIDBuf) -> (r: bool)
    ensures
        r == has_id(ids.deep_view(), id@),
{
    let n = ids.len();
    let mut i: usize = 0;
    while i < n
        invariant
            n == ids@.len(),
            0 <= i <= n,
            forall|j: int| 0 <= j < i ==> ids.deep_view()[j] != id@,
        decreases n - i,
    {
        if ids[i].same_as(id) {
            assert(ids.deep_view()[i as int] == id@);
            return true;
        }
        i += 1;
    }
    false
}

} // verus!

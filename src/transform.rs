//! The transform service: which slice of each input the next run of a
//! derivative's transform processes, and committing what the engine returns.

use vstd::prelude::*;

use crate::block_hash::{push_source, source_words};
use crate::dataset_id::DatasetIDBuf;
use crate::engine::{Engine, ExecuteQueryRequest, InputDataSlice, Watermark};
use crate::error::{ContractError, DomainError, EngineError};
use crate::layout::{joined, DatasetLayout, VolumeLayout};
use crate::metadata::{
    DatasetSource, DatasetSourceDerivative, DatasetSummary, DatasetVocabulary, MetadataBlock,
};
use crate::metadata_chain::{chain_wf, first_with_hash, with_hash, BlockRef, MetadataChain};
use crate::repository::MetadataRepositoryImpl;
use crate::time_interval::TimeInterval;

verus! {

#[derive(Debug)]
pub enum TransformResult {
    UpToDate,
    Updated { block_hash: String },
}

#[derive(Debug)]
pub enum TransformError {
    EngineError(EngineError),
    /// A repository lookup failed.
    Internal(DomainError),
    /// The output chain declares more than one distinct source.
    SourceEvolution,
    /// The dataset is not a derivative.
    NotDerivative,
}

/// The interval of the `j`-th input slice of a block, if it has one.
pub open spec fn slice_interval_at(b: MetadataBlock, j: int) -> Option<TimeInterval> {
    match b.input_slices {
        Some(ss) => if 0 <= j < ss@.len() {
            Some(ss@[j].interval)
        } else {
            None
        },
        None => None,
    }
}

/// The first non-empty interval of input `j` among blocks `bs[i..]` (newest
/// first), or the empty interval.
pub open spec fn processed_from(bs: Seq<MetadataBlock>, j: int, i: int) -> TimeInterval
    decreases bs.len() - i,
{
    if i < 0 || i >= bs.len() {
        TimeInterval::Empty
    } else {
        match slice_interval_at(bs[i], j) {
            Some(iv) => if iv is Empty {
                processed_from(bs, j, i + 1)
            } else {
                iv
            },
            None => processed_from(bs, j, i + 1),
        }
    }
}

/// The end of the run of blocks from `i` on whose system time lies in `iv`.
pub open spec fn prefix_end(bs: Seq<MetadataBlock>, iv: TimeInterval, i: int) -> int
    decreases bs.len() - i,
{
    if 0 <= i < bs.len() && iv.contains(bs[i].system_time as int) {
        prefix_end(bs, iv, i + 1)
    } else {
        i
    }
}

pub open spec fn watermark_of(b: MetadataBlock) -> Seq<Watermark> {
    match b.output_watermark {
        Some(e) => seq![Watermark { system_time: b.system_time, event_time: e }],
        None => Seq::empty(),
    }
}

/// The watermarks of blocks `bs[i..k]` (newest first), oldest first.
pub open spec fn watermarks_between(bs: Seq<MetadataBlock>, i: int, k: int) -> Seq<Watermark>
    decreases k - i,
{
    if i < 0 || i >= k {
        Seq::empty()
    } else {
        watermarks_between(bs, i + 1, k) + watermark_of(bs[i])
    }
}

/// What the output chain (`out`, newest first) has processed of input `j`.
pub open spec fn processed_interval(out: Seq<MetadataBlock>, j: int) -> TimeInterval {
    processed_from(out, j, 0)
}

pub open spec fn unprocessed_interval(out: Seq<MetadataBlock>, j: int) -> TimeInterval {
    processed_interval(out, j).spec_right_complement()
}

/// How many of the input's newest blocks are not processed yet.
pub open spec fn unprocessed_count(out: Seq<MetadataBlock>, j: int, input: Seq<MetadataBlock>) -> int {
    prefix_end(input, unprocessed_interval(out, j), 0)
}

pub open spec fn available_interval(out: Seq<MetadataBlock>, j: int, input: Seq<MetadataBlock>) -> TimeInterval {
    if unprocessed_count(out, j, input) > 0 {
        TimeInterval::UnboundedClosedRight { upper: input[0].system_time }
    } else {
        TimeInterval::Empty
    }
}

pub open spec fn interval_to_process(out: Seq<MetadataBlock>, j: int, input: Seq<MetadataBlock>) -> TimeInterval {
    available_interval(out, j, input).spec_intersect(unprocessed_interval(out, j))
}

pub open spec fn explicit_watermarks(out: Seq<MetadataBlock>, j: int, input: Seq<MetadataBlock>) -> Seq<Watermark> {
    watermarks_between(input, 0, unprocessed_count(out, j, input))
}

/// No unprocessed block of the input commits records, and none declares a
/// watermark.
pub open spec fn input_slice_empty(out: Seq<MetadataBlock>, j: int, input: Seq<MetadataBlock>) -> bool {
    &&& forall|i: int|
        0 <= i < unprocessed_count(out, j, input) ==> (#[trigger] input[i]).output_slice is None
    &&& explicit_watermarks(out, j, input).len() == 0
}

/// Whether some block of `bs` declares a source whose words differ from `w`.
pub open spec fn has_other_source(bs: Seq<MetadataBlock>, w: Seq<u64>) -> bool {
    exists|i: int|
        0 <= i < bs.len() && (#[trigger] bs[i]).source is Some && source_words(bs[i].source.unwrap())
            != w
}

pub open spec fn genesis_source(c: MetadataChain) -> DatasetSource {
    c@[0].source.unwrap()
}

/// The inputs of the derivative declared by a chain's genesis block.
pub open spec fn declared_inputs(c: MetadataChain) -> Seq<Seq<char>> {
    match genesis_source(c) {
        DatasetSource::Derivative(d) => d.inputs.deep_view(),
        DatasetSource::Root(_) => Seq::empty(),
    }
}

/// Every input slice of a derivative, against the repository's chains, is empty.
pub open spec fn all_inputs_empty(repo: MetadataRepositoryImpl, c: MetadataChain) -> bool {
    forall|j: int|
        0 <= j < declared_inputs(c).len() ==> input_slice_empty(
            c.blocks_from_head(),
            j,
            repo.chain_of(#[trigger] declared_inputs(c)[j]).blocks_from_head(),
        )
}

/// The slice of input `j` that the next transform run processes, and whether
/// it is empty.
pub fn get_input_slice(index: usize, output_chain: &MetadataChain, input_chain: &MetadataChain) -> (r: (
    InputDataSlice,
    bool,
))
    ensures
        r.0.interval == interval_to_process(
            output_chain.blocks_from_head(),
            index as int,
            input_chain.blocks_from_head(),
        ),
        r.0.explicit_watermarks@ == explicit_watermarks(
            output_chain.blocks_from_head(),
            index as int,
            input_chain.blocks_from_head(),
        ),
        r.1 == input_slice_empty(
            output_chain.blocks_from_head(),
            index as int,
            input_chain.blocks_from_head(),
        ),
{
    let ghost out = output_chain.blocks_from_head();
    let ghost inp = input_chain.blocks_from_head();
    let j = index;
    // What the output chain has processed: the newest non-empty interval.
    let n = output_chain.len();
    let mut processed = TimeInterval::Empty;
    let mut found = false;
    let mut i: usize = 0;
    while i < n && !found
        invariant
            n == out.len(),
            n == output_chain@.len(),
            out == output_chain.blocks_from_head(),
            0 <= i <= n,
            !found ==> processed_from(out, j as int, 0) == processed_from(out, j as int, i as int),
            !found ==> processed == TimeInterval::Empty,
            found ==> processed == processed_from(out, j as int, 0),
        decreases n - i,
    {
        let b = output_chain.block_from_head(i);
        match &b.input_slices {
            Some(ss) => {
                if j < ss.len() && !ss[j].interval.is_empty() {
                    processed = ss[j].interval;
                    found = true;
                }
            },
            None => {},
        }
        i += 1;
    }
    let unprocessed = processed.right_complement();
    // The newest input blocks that are not processed yet.
    let m = input_chain.len();
    let mut k: usize = 0;
    while k < m && unprocessed.contains_point(input_chain.block_from_head(k).system_time)
        invariant
            m == inp.len(),
            m == input_chain@.len(),
            inp == input_chain.blocks_from_head(),
            0 <= k <= m,
            unprocessed == unprocessed_interval(out, j as int),
            prefix_end(inp, unprocessed, 0) == prefix_end(inp, unprocessed, k as int),
        decreases m - k,
    {
        k += 1;
    }
    let available = if k > 0 {
        TimeInterval::unbounded_closed_right(input_chain.block_from_head(0).system_time)
    } else {
        TimeInterval::empty()
    };
    let interval = available.intersect(&unprocessed);
    // Their watermarks, oldest first.
    let mut watermarks: Vec<Watermark> = Vec::new();
    let mut w: usize = k;
    while w > 0
        invariant
            k <= m,
            m == inp.len(),
            m == input_chain@.len(),
            inp == input_chain.blocks_from_head(),
            0 <= w <= k,
            watermarks@ == watermarks_between(inp, w as int, k as int),
        decreases w,
    {
        w -= 1;
        let b = input_chain.block_from_head(w);
        let ghost before = watermarks@;
        match b.output_watermark {
            Some(e) => {
                watermarks.push(Watermark { system_time: b.system_time, event_time: e });
            },
            None => {},
        }
        assert(watermarks@ =~= watermarks_between(inp, w as int, k as int));
    }
    let mut any_output = false;
    let mut q: usize = 0;
    while q < k
        invariant
            k <= m,
            m == inp.len(),
            m == input_chain@.len(),
            inp == input_chain.blocks_from_head(),
            0 <= q <= k,
            any_output == exists|x: int| 0 <= x < q && (#[trigger] inp[x]).output_slice is Some,
        decreases k - q,
    {
        if input_chain.block_from_head(q).output_slice.is_some() {
            any_output = true;
        }
        q += 1;
    }
    let empty = !any_output && watermarks.len() == 0;
    (InputDataSlice { interval, explicit_watermarks: watermarks }, empty)
}

/// `new` is `old` with one more block at the head of the chain of `id`: it is
/// `block` with its previous-block hash set to the old head's hash and its own
/// hash set to `h`.
pub open spec fn committed(
    old: MetadataRepositoryImpl,
    new: MetadataRepositoryImpl,
    id: Seq<char>,
    block: MetadataBlock,
    h: Seq<char>,
) -> bool {
    let i = old.index_of(id);
    let head = new.chains()[i].head();
    &&& new.wf()
    &&& new.ids() == old.ids()
    &&& new.summaries() == old.summaries()
    &&& new.layout() == old.layout()
    &&& new.chains().len() == old.chains().len()
    &&& forall|k: int| 0 <= k < old.chains().len() && k != i ==> new.chains()[k] == old.chains()[k]
    &&& new.chains()[i]@ == old.chains()[i]@.push(head)
    &&& head.block_hash@ == h
    &&& head == with_hash(MetadataBlock { prev_block_hash: head.prev_block_hash, ..block }, head.block_hash)
    &&& head.prev_block_hash@ == old.chains()[i].head().block_hash@
    &&& head.system_time == block.system_time
    &&& head.output_slice == block.output_slice
}

/// Appends a block returned by an engine to the head of a dataset's chain,
/// after setting its previous-block hash to the head's hash. A block older
/// than the head breaks the engine contract and is refused.
pub fn commit_block(repo: &mut MetadataRepositoryImpl, dataset_id: &DatasetIDBuf, block: MetadataBlock) -> (r:
    Result<String, TransformError>)
    requires
        old(repo).wf(),
    ensures
        final(repo).wf(),
        r is Err ==> *final(repo) == *old(repo),
        r is Err ==> r matches Err(TransformError::Internal(_)) || r matches Err(TransformError::EngineError(_)),
        old(repo).has(dataset_id@) && r is Err ==> r matches Err(TransformError::EngineError(_)),
        !old(repo).has(dataset_id@) ==> r matches Err(TransformError::Internal(DomainError::DoesNotExist { .. })),
        old(repo).has(dataset_id@) ==> (r is Ok <==> block.system_time >= old(repo).chain_of(
            dataset_id@,
        ).head().system_time),
        r matches Ok(h) ==> committed(*old(repo), *final(repo), dataset_id@, block, h@),
{
    let i = match repo.find(dataset_id) {
        Some(i) => i,
        None => {
            return Err(
                TransformError::Internal(
                    DomainError::does_not_exist(
                        crate::error::ResourceKind::Dataset,
                        dataset_id.as_str().to_owned(),
                    ),
                ),
            );
        },
    };
    proof {
        repo.lemma_index_of(i as int);
    }
    let chain = repo.chain_at(i);
    assert(chain@.len() >= 1) by {
        reveal(chain_wf);
    }
    let head_time = chain.block_from_head(0).system_time;
    if block.system_time < head_time {
        return Err(
            TransformError::EngineError(
                EngineError::ContractError(
                    ContractError::new("the block is older than the head of its chain", None, None),
                ),
            ),
        );
    }
    let prev = chain.read_ref(&BlockRef::Head);
    let mut block = block;
    block.prev_block_hash = prev;
    let h = repo.append_block(i, block);
    proof {
        repo.lemma_index_of(i as int);
    }
    Ok(h)
}

/// `a + b`, or the largest `u64` when that overflows.
pub open spec fn saturating_sum(a: u64, b: u64) -> u64 {
    if a + b > u64::MAX {
        u64::MAX
    } else {
        (a + b) as u64
    }
}

/// The summary after committing `block`: its record count grows by the
/// block's output records (or restarts at zero when it commits none), and the
/// block's time becomes the last pull.
pub open spec fn summary_after(old: DatasetSummary, new: DatasetSummary, block: MetadataBlock, data_size: u64) -> bool {
    &&& new.id@ == old.id@
    &&& new.kind == old.kind
    &&& new.dependencies.deep_view() == old.dependencies.deep_view()
    &&& new.vocab.same(&old.vocab)
    &&& new.num_records == match block.output_slice {
        Some(s) => saturating_sum(old.num_records, s.num_records),
        None => 0,
    }
    &&& new.last_pulled == Some(block.system_time)
    &&& new.data_size == data_size
}

/// Builds the summary that follows a committed block.
pub fn next_summary(summary: &DatasetSummary, block: &MetadataBlock, data_size: u64) -> (r: DatasetSummary)
    ensures
        summary_after(*summary, r, *block, data_size),
{
    let num_records = match &block.output_slice {
        Some(s) => summary.num_records.saturating_add(s.num_records),
        None => 0,
    };
    DatasetSummary {
        id: summary.id.copied(),
        kind: summary.kind,
        dependencies: crate::metadata::copy_ids(&summary.dependencies),
        last_pulled: Some(block.system_time),
        num_records,
        data_size,
        vocab: summary.vocab.copied(),
    }
}

/// Updates the summary of a dataset after a committed block with the given
/// hash; `data_size` is the size of its data and checkpoints on disk.
pub fn update_summary_after(
    repo: &mut MetadataRepositoryImpl,
    dataset_id: &DatasetIDBuf,
    block_hash: &str,
    data_size: u64,
) -> (r: Result<(), DomainError>)
    requires
        old(repo).wf(),
    ensures
        final(repo).wf(),
        final(repo).ids() == old(repo).ids(),
        final(repo).chains() == old(repo).chains(),
        r is Err ==> *final(repo) == *old(repo),
        r is Ok <==> old(repo).has(dataset_id@) && exists|k: int|
            0 <= k < old(repo).chain_of(dataset_id@)@.len() && old(repo).chain_of(
                dataset_id@,
            )@[k].block_hash@ == block_hash@,
        r is Ok ==> exists|k: int|
            first_with_hash(old(repo).chain_of(dataset_id@)@, block_hash@, k) && summary_after(
                old(repo).summary_of(dataset_id@),
                final(repo).summary_of(dataset_id@),
                old(repo).chain_of(dataset_id@)@[k],
                data_size,
            ),
{
    let chain = match repo.get_metadata_chain(dataset_id) {
        Ok(c) => c,
        Err(e) => {
            return Err(e);
        },
    };
    let block = match chain.get_block(block_hash) {
        Some(b) => b,
        None => {
            return Err(
                DomainError::does_not_exist(crate::error::ResourceKind::Dataset, block_hash.to_owned()),
            );
        },
    };
    let summary = match repo.get_summary(dataset_id) {
        Ok(s) => s,
        Err(e) => {
            return Err(e);
        },
    };
    let next = next_summary(summary, block, data_size);
    let ghost before = *repo;
    let r = repo.update_summary(dataset_id, next);
    proof {
        let i = before.index_of(dataset_id@);
        assert(repo.summaries() == before.summaries().update(i, next));
    }
    r
}

proof fn lemma_no_watermarks(bs: Seq<MetadataBlock>, i: int, k: int)
    requires
        forall|x: int| 0 <= x < bs.len() ==> (#[trigger] bs[x]).output_watermark is None,
        k <= bs.len(),
    ensures
        watermarks_between(bs, i, k).len() == 0,
    decreases k - i,
{
    if 0 <= i < k {
        lemma_no_watermarks(bs, i + 1, k);
    }
}

proof fn lemma_never_processed(out: Seq<MetadataBlock>, j: int, i: int)
    requires
        forall|x: int| 0 <= x < out.len() ==> (#[trigger] out[x]).input_slices is None,
    ensures
        processed_from(out, j, i) == TimeInterval::Empty,
    decreases out.len() - i,
{
    if 0 <= i < out.len() {
        lemma_never_processed(out, j, i + 1);
    }
}

proof fn lemma_prefix_all(bs: Seq<MetadataBlock>, i: int)
    requires
        0 <= i <= bs.len(),
    ensures
        prefix_end(bs, TimeInterval::Unbounded, i) == bs.len(),
    decreases bs.len() - i,
{
    if i < bs.len() {
        lemma_prefix_all(bs, i + 1);
    }
}

/// An input none of whose blocks commits records or declares a watermark
/// gives an empty slice, whatever the output chain has processed.
pub proof fn lemma_nothing_new_is_empty(out: Seq<MetadataBlock>, j: int, input: Seq<MetadataBlock>)
    requires
        forall|x: int|
            0 <= x < input.len() ==> (#[trigger] input[x]).output_slice is None
                && input[x].output_watermark is None,
    ensures
        input_slice_empty(out, j, input),
{
    let iv = unprocessed_interval(out, j);
    lemma_prefix_le(input, iv, 0);
    lemma_no_watermarks(input, 0, unprocessed_count(out, j, input));
}

proof fn lemma_prefix_le(bs: Seq<MetadataBlock>, iv: TimeInterval, i: int)
    requires
        0 <= i <= bs.len(),
    ensures
        i <= prefix_end(bs, iv, i) <= bs.len(),
    decreases bs.len() - i,
{
    if i < bs.len() && iv.contains(bs[i].system_time as int) {
        lemma_prefix_le(bs, iv, i + 1);
    }
}

/// A derivative whose inputs hold no block with records or watermarks is up
/// to date: no input slice has anything to process.
pub proof fn lemma_fresh_derivative_up_to_date(repo: MetadataRepositoryImpl, c: MetadataChain)
    requires
        forall|j: int, x: int|
            0 <= j < declared_inputs(c).len() && 0 <= x < repo.chain_of(
                declared_inputs(c)[j],
            ).blocks_from_head().len() ==> (#[trigger] repo.chain_of(
                declared_inputs(c)[j],
            ).blocks_from_head()[x]).output_slice is None && repo.chain_of(
                declared_inputs(c)[j],
            ).blocks_from_head()[x].output_watermark is None,
    ensures
        all_inputs_empty(repo, c),
{
    assert forall|j: int| 0 <= j < declared_inputs(c).len() implies input_slice_empty(
        c.blocks_from_head(),
        j,
        repo.chain_of(#[trigger] declared_inputs(c)[j]).blocks_from_head(),
    ) by {
        lemma_nothing_new_is_empty(
            c.blocks_from_head(),
            j,
            repo.chain_of(declared_inputs(c)[j]).blocks_from_head(),
        );
    }
}

/// On the first run (no block of the output chain records input slices), the
/// interval to process of an input is everything up to its newest block, all
/// of its blocks are unprocessed, and the slice is not empty when that block
/// commits records.
pub proof fn lemma_first_run(out: Seq<MetadataBlock>, j: int, input: Seq<MetadataBlock>)
    requires
        forall|x: int| 0 <= x < out.len() ==> (#[trigger] out[x]).input_slices is None,
        input.len() > 0,
    ensures
        interval_to_process(out, j, input) == (TimeInterval::UnboundedClosedRight {
            upper: input[0].system_time,
        }),
        unprocessed_count(out, j, input) == input.len(),
        input[0].output_slice is Some ==> !input_slice_empty(out, j, input),
{
    lemma_never_processed(out, j, 0);
    assert(unprocessed_interval(out, j) == TimeInterval::Unbounded);
    lemma_prefix_all(input, 0);
}

/// Whether two word sequences are equal.
fn words_eq(a: &Vec<u64>, b: &Vec<u64>) -> (r: bool)
    ensures
        r == (a@ == b@),
{
    if a.len() != b.len() {
        return false;
    }
    let n = a.len();
    let mut i: usize = 0;
    while i < n
        invariant
            n == a@.len(),
            n == b@.len(),
            0 <= i <= n,
            forall|x: int| 0 <= x < i ==> a@[x] == b@[x],
        decreases n - i,
    {
        if a[i] != b[i] {
            return false;
        }
        i += 1;
    }
    assert(a@ =~= b@);
    true
}

pub struct TransformServiceImpl {
    volume_layout: VolumeLayout,
}

impl TransformServiceImpl {
    pub closed spec fn volume(&self) -> VolumeLayout {
        self.volume_layout
    }

    pub fn new(volume_layout: &VolumeLayout) -> (r: TransformServiceImpl)
        ensures
            r.volume().data_dir@ == volume_layout.data_dir@,
            r.volume().checkpoints_dir@ == volume_layout.checkpoints_dir@,
            r.volume().cache_dir@ == volume_layout.cache_dir@,
    {
        TransformServiceImpl {
            volume_layout: VolumeLayout {
                data_dir: volume_layout.data_dir.clone(),
                checkpoints_dir: volume_layout.checkpoints_dir.clone(),
                cache_dir: volume_layout.cache_dir.clone(),
            },
        }
    }

    /// Brings a derivative up to date: computes the next operation and, unless
    /// every input slice is empty, runs it on the engine and commits the block
    /// that comes back.
    pub fn transform<E: Engine>(
        &self,
        repo: &mut MetadataRepositoryImpl,
        dataset_id: &DatasetIDBuf,
        engine: &E,
    ) -> (r: Result<TransformResult, TransformError>)
        requires
            old(repo).wf(),
        ensures
            final(repo).wf(),
            !old(repo).has(dataset_id@) ==> r matches Err(TransformError::Internal(DomainError::DoesNotExist { .. })),
            old(repo).has(dataset_id@) ==> ({
                let c = old(repo).chain_of(dataset_id@);
                let inputs = declared_inputs(c);
                if has_other_source(c.blocks_from_head(), source_words(genesis_source(c))) {
                    r matches Err(TransformError::SourceEvolution)
                } else if genesis_source(c) is Root {
                    r matches Err(TransformError::NotDerivative)
                } else if exists|j: int| 0 <= j < inputs.len() && !old(repo).has(#[trigger] inputs[j]) {
                    r matches Err(TransformError::Internal(DomainError::DoesNotExist { .. }))
                } else {
                    &&& (all_inputs_empty(*old(repo), c) <==> r matches Ok(TransformResult::UpToDate))
                    &&& (r is Ok || r matches Err(TransformError::EngineError(_)))
                }
            }),
            r matches Ok(TransformResult::UpToDate) ==> *final(repo) == *old(repo)
                && old(repo).has(dataset_id@) && all_inputs_empty(
                *old(repo),
                old(repo).chain_of(dataset_id@),
            ),
            r matches Ok(TransformResult::Updated { block_hash }) ==> old(repo).has(dataset_id@)
                && !all_inputs_empty(*old(repo), old(repo).chain_of(dataset_id@)) && exists|
                b: MetadataBlock,
            | committed(*old(repo), *final(repo), dataset_id@, b, block_hash@),
            r is Err ==> *final(repo) == *old(repo),
    {
        let next = self.get_next_operation(repo, dataset_id);
        let request = match next {
            Ok(Some(req)) => {
                assert(repo.has(dataset_id@));
                let ghost c = repo.chain_of(dataset_id@);
                assert(!has_other_source(c.blocks_from_head(), source_words(genesis_source(c))));
                assert(!(genesis_source(c) is Root));
                assert(!all_inputs_empty(*repo, c));
                req
            },
            Ok(None) => {
                return Ok(TransformResult::UpToDate);
            },
            Err(e) => {
                return Err(e);
            },
        };
        let response = match engine.transform(request) {
            Ok(resp) => resp,
            Err(e) => {
                return Err(TransformError::EngineError(e));
            },
        };
        let ghost block = response.block;
        assert(old(repo).has(dataset_id@));
        assert(!all_inputs_empty(*old(repo), old(repo).chain_of(dataset_id@)));
        match commit_block(repo, dataset_id, response.block) {
            Ok(h) => {
                assert(committed(*old(repo), *repo, dataset_id@, block, h@));
                let r = TransformResult::Updated { block_hash: h };
                assert(r is Updated);
                assert(r->block_hash@ == h@);
                Ok(r)
            },
            Err(e) => Err(e),
        }
    }

    /// Updates the summary after a transform: nothing to do when the dataset
    /// was up to date.
    pub fn update_summary(
        &self,
        repo: &mut MetadataRepositoryImpl,
        dataset_id: &DatasetIDBuf,
        result: &TransformResult,
        data_size: u64,
    ) -> (r: Result<(), TransformError>)
        requires
            old(repo).wf(),
        ensures
            final(repo).wf(),
            final(repo).ids() == old(repo).ids(),
            final(repo).chains() == old(repo).chains(),
            result is UpToDate ==> *final(repo) == *old(repo) && r is Ok,
            r is Err ==> *final(repo) == *old(repo),
            result matches TransformResult::Updated { block_hash } ==> (r is Ok <==> old(repo).has(
                dataset_id@,
            ) && exists|k: int|
                0 <= k < old(repo).chain_of(dataset_id@)@.len() && old(repo).chain_of(
                    dataset_id@,
                )@[k].block_hash@ == block_hash@),
            result matches TransformResult::Updated { block_hash } ==> (r is Ok ==> exists|k: int|
                first_with_hash(old(repo).chain_of(dataset_id@)@, block_hash@, k) && summary_after(
                    old(repo).summary_of(dataset_id@),
                    final(repo).summary_of(dataset_id@),
                    old(repo).chain_of(dataset_id@)@[k],
                    data_size,
                )),
    {
        match result {
            TransformResult::UpToDate => Ok(()),
            TransformResult::Updated { block_hash } => {
                match update_summary_after(repo, dataset_id, block_hash.as_str(), data_size) {
                    Ok(()) => Ok(()),
                    Err(e) => Err(TransformError::Internal(e)),
                }
            },
        }
    }

    /// The declared source of a chain, checked to be the only one.
    fn single_source(chain: &MetadataChain) -> (r: Result<&DatasetSource, TransformError>)
        requires
            chain.wf(),
        ensures
            has_other_source(chain.blocks_from_head(), source_words(genesis_source(*chain)))
                <==> r is Err,
            r matches Ok(s) ==> *s == genesis_source(*chain),
            r is Err ==> r matches Err(TransformError::SourceEvolution),
    {
        proof {
            reveal(chain_wf);
        }
        let n = chain.len();
        let genesis = chain.block_from_head(n - 1);
        let src = match &genesis.source {
            Some(s) => s,
            None => {
                return Err(TransformError::SourceEvolution);
            },
        };
        let ghost bs = chain.blocks_from_head();
        assert(bs[n - 1] == chain@[0]);
        let mut gw: Vec<u64> = Vec::new();
        push_source(&mut gw, src);
        assert(gw@ =~= source_words(genesis_source(*chain)));
        let mut i: usize = 0;
        while i < n
            invariant
                n == bs.len(),
                n == chain@.len(),
                bs == chain.blocks_from_head(),
                0 <= i <= n,
                gw@ == source_words(genesis_source(*chain)),
                forall|x: int|
                    0 <= x < i && (#[trigger] bs[x]).source is Some ==> source_words(
                        bs[x].source.unwrap(),
                    ) == gw@,
            decreases n - i,
        {
            let b = chain.block_from_head(i);
            match &b.source {
                Some(s) => {
                    let mut w: Vec<u64> = Vec::new();
                    push_source(&mut w, s);
                    assert(w@ =~= source_words(*s));
                    if !words_eq(&w, &gw) {
                        return Err(TransformError::SourceEvolution);
                    }
                },
                None => {},
            }
            i += 1;
        }
        Ok(src)
    }

    /// The request for the next transform run of a derivative, or `None` when
    /// none of its inputs has anything new.
    pub fn get_next_operation(&self, repo: &MetadataRepositoryImpl, dataset_id: &DatasetIDBuf) -> (r:
        Result<Option<ExecuteQueryRequest>, TransformError>)
        requires
            repo.wf(),
        ensures
            !repo.has(dataset_id@) ==> r matches Err(TransformError::Internal(DomainError::DoesNotExist { .. })),
            repo.has(dataset_id@) ==> ({
                let c = repo.chain_of(dataset_id@);
                let out = c.blocks_from_head();
                let inputs = declared_inputs(c);
                if has_other_source(out, source_words(genesis_source(c))) {
                    r matches Err(TransformError::SourceEvolution)
                } else if genesis_source(c) is Root {
                    r matches Err(TransformError::NotDerivative)
                } else if exists|j: int| 0 <= j < inputs.len() && !repo.has(#[trigger] inputs[j]) {
                    r matches Err(TransformError::Internal(DomainError::DoesNotExist { .. }))
                } else {
                    &&& r is Ok
                    &&& (r matches Ok(None) <==> all_inputs_empty(*repo, c))
                    &&& r matches Ok(Some(req)) ==> {
                        &&& req.dataset_id@ == dataset_id@
                        &&& req.source.inputs.deep_view() == inputs
                        &&& genesis_source(c) matches DatasetSource::Derivative(d)
                            && req.source.transform.same(&d.transform)
                        &&& req.input_slices@.len() == inputs.len()
                        &&& forall|j: int|
                            0 <= j < inputs.len() ==> {
                                let ib = repo.chain_of(inputs[j]).blocks_from_head();
                                &&& (#[trigger] req.input_slices@[j]).0@ == inputs[j]
                                &&& req.input_slices@[j].1.interval == interval_to_process(out, j, ib)
                                &&& req.input_slices@[j].1.explicit_watermarks@
                                    == explicit_watermarks(out, j, ib)
                            }
                        &&& req.dataset_vocabs@.len() == inputs.len() + 1
                        &&& req.data_dirs@.len() == inputs.len() + 1
                        &&& forall|j: int|
                            0 <= j < inputs.len() ==> {
                                &&& (#[trigger] req.dataset_vocabs@[j]).0@ == inputs[j]
                                &&& req.dataset_vocabs@[j].1.same(&repo.summary_of(inputs[j]).vocab)
                                &&& req.data_dirs@[j].0@ == inputs[j]
                                &&& req.data_dirs@[j].1@ == joined(self.volume().data_dir@, inputs[j])
                            }
                        &&& req.dataset_vocabs@[inputs.len() as int].0@ == dataset_id@
                        &&& req.dataset_vocabs@[inputs.len() as int].1.same(
                            &repo.summary_of(dataset_id@).vocab,
                        )
                        &&& req.data_dirs@[inputs.len() as int].0@ == dataset_id@
                        &&& req.data_dirs@[inputs.len() as int].1@ == joined(
                            self.volume().data_dir@,
                            dataset_id@,
                        )
                        &&& req.checkpoints_dir@ == joined(self.volume().checkpoints_dir@, dataset_id@)
                    }
                }
            }),
    {
        let output_chain = match repo.get_metadata_chain(dataset_id) {
            Ok(c) => c,
            Err(e) => {
                return Err(TransformError::Internal(e));
            },
        };
        let ghost out = output_chain.blocks_from_head();
        let source = match Self::single_source(output_chain) {
            Ok(s) => s,
            Err(e) => {
                return Err(e);
            },
        };
        let src = match source {
            DatasetSource::Derivative(d) => d,
            DatasetSource::Root(_) => {
                return Err(TransformError::NotDerivative);
            },
        };
        let ghost inputs = src.inputs.deep_view();
        let n = src.inputs.len();
        let mut input_slices: Vec<(DatasetIDBuf, InputDataSlice)> = Vec::new();
        let mut vocabs: Vec<(DatasetIDBuf, DatasetVocabulary)> = Vec::new();
        let mut data_dirs: Vec<(DatasetIDBuf, String)> = Vec::new();
        let mut non_empty: usize = 0;
        let mut j: usize = 0;
        while j < n
            invariant
                repo.wf(),
                n == inputs.len(),
                inputs == declared_inputs(repo.chain_of(dataset_id@)),
                inputs == src.inputs.deep_view(),
                genesis_source(repo.chain_of(dataset_id@)) == DatasetSource::Derivative(*src),
                !has_other_source(out, source_words(genesis_source(repo.chain_of(dataset_id@)))),
                repo.has(dataset_id@),
                *output_chain == repo.chain_of(dataset_id@),
                out == output_chain.blocks_from_head(),
                0 <= j <= n,
                0 <= non_empty <= j,
                forall|x: int| 0 <= x < j ==> repo.has(#[trigger] inputs[x]),
                (non_empty == 0) == forall|x: int|
                    0 <= x < j ==> input_slice_empty(
                        out,
                        x,
                        repo.chain_of(#[trigger] inputs[x]).blocks_from_head(),
                    ),
                input_slices@.len() == j,
                vocabs@.len() == j,
                data_dirs@.len() == j,
                forall|x: int|
                    0 <= x < j ==> {
                        let ib = repo.chain_of(inputs[x]).blocks_from_head();
                        &&& (#[trigger] input_slices@[x]).0@ == inputs[x]
                        &&& input_slices@[x].1.interval == interval_to_process(out, x, ib)
                        &&& input_slices@[x].1.explicit_watermarks@ == explicit_watermarks(out, x, ib)
                    },
                forall|x: int|
                    0 <= x < j ==> (#[trigger] vocabs@[x]).0@ == inputs[x] && vocabs@[x].1.same(
                        &repo.summary_of(inputs[x]).vocab,
                    ),
                forall|x: int|
                    0 <= x < j ==> (#[trigger] data_dirs@[x]).0@ == inputs[x] && data_dirs@[x].1@
                        == joined(self.volume().data_dir@, inputs[x]),
            decreases n - j,
        {
            let input_id = &src.inputs[j];
            assert(input_id@ == inputs[j as int]);
            let input_chain = match repo.get_metadata_chain(input_id) {
                Ok(c) => c,
                Err(e) => {
                    return Err(TransformError::Internal(e));
                },
            };
            let summary = match repo.get_summary(input_id) {
                Ok(s) => s,
                Err(e) => {
                    return Err(TransformError::Internal(e));
                },
            };
            let (slice, empty) = get_input_slice(j, output_chain, input_chain);
            if !empty {
                non_empty += 1;
            }
            input_slices.push((input_id.copied(), slice));
            vocabs.push((input_id.copied(), summary.vocab.copied()));
            let layout = DatasetLayout::new(&self.volume_layout, input_id);
            data_dirs.push((input_id.copied(), layout.data_dir));
            j += 1;
        }
        let own_summary = match repo.get_summary(dataset_id) {
            Ok(s) => s,
            Err(e) => {
                return Err(TransformError::Internal(e));
            },
        };
        vocabs.push((dataset_id.copied(), own_summary.vocab.copied()));
        let output_layout = DatasetLayout::new(&self.volume_layout, dataset_id);
        data_dirs.push((dataset_id.copied(), output_layout.data_dir));
        if non_empty > 0 {
            Ok(
                Some(
                    ExecuteQueryRequest {
                        dataset_id: dataset_id.copied(),
                        source: src.copied(),
                        dataset_vocabs: vocabs,
                        input_slices,
                        data_dirs,
                        checkpoints_dir: output_layout.checkpoints_dir,
                    },
                ),
            )
        } else {
            Ok(None)
        }
    }
}

} // verus!

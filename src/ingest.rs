//! The ingest service: feeding a root dataset from its external source.

use vstd::prelude::*;

use crate::dataset_id::DatasetIDBuf;
use crate::engine::{Engine, IngestRequest};
use crate::error::{DomainError, EngineError, ResourceKind};
use crate::layout::{joined, DatasetLayout, VolumeLayout};
use crate::metadata::{DatasetSource, DatasetSourceRoot, MetadataBlock};
use crate::metadata_chain::{chain_wf, first_with_hash, MetadataChain};
use crate::repository::MetadataRepositoryImpl;
use crate::transform::{commit_block, committed, summary_after, update_summary_after, TransformError};

verus! {

/// The stages of an ingest, in the order they run.
#[derive(Debug, Clone, Copy, PartialEq, Eq, Structural)]
pub enum IngestStage {
    CheckCache,
    Fetch,
    Prepare,
    Read,
    Preprocess,
    Merge,
    Commit,
}

impl IngestStage {
    /// The position of the stage, from zero.
    pub fn step(&self) -> (r: u32)
        ensures
            r < 7,
            r == match self {
                IngestStage::CheckCache => 0u32,
                IngestStage::Fetch => 1,
                IngestStage::Prepare => 2,
                IngestStage::Read => 3,
                IngestStage::Preprocess => 4,
                IngestStage::Merge => 5,
                IngestStage::Commit => 6,
            },
    {
        match self {
            IngestStage::CheckCache => 0,
            IngestStage::Fetch => 1,
            IngestStage::Prepare => 2,
            IngestStage::Read => 3,
            IngestStage::Preprocess => 4,
            IngestStage::Merge => 5,
            IngestStage::Commit => 6,
        }
    }

    /// Whether progress in this stage is shown as a bar (downloads) rather
    /// than a spinner.
    pub fn shows_progress_bar(&self) -> (r: bool)
        ensures
            r == (*self is Fetch),
    {
        match self {
            IngestStage::Fetch => true,
            _ => false,
        }
    }

    /// What the stage is doing, for people.
    pub fn description(&self) -> (r: &'static str)
        ensures
            r@ == match self {
                IngestStage::CheckCache => "Checking for updates"@,
                IngestStage::Fetch => "Downloading data"@,
                IngestStage::Prepare => "Preparing data"@,
                IngestStage::Read => "Reading data"@,
                IngestStage::Preprocess => "Preprocessing data"@,
                IngestStage::Merge => "Merging data"@,
                IngestStage::Commit => "Committing data"@,
            },
    {
        match self {
            IngestStage::CheckCache => "Checking for updates",
            IngestStage::Fetch => "Downloading data",
            IngestStage::Prepare => "Preparing data",
            IngestStage::Read => "Reading data",
            IngestStage::Preprocess => "Preprocessing data",
            IngestStage::Merge => "Merging data",
            IngestStage::Commit => "Committing data",
        }
    }
}

#[derive(Debug)]
pub enum IngestResult {
    UpToDate,
    Updated { block_hash: String },
}

#[derive(Debug)]
pub enum IngestError {
    EngineError(EngineError),
    /// A repository lookup failed.
    Internal(DomainError),
    /// The dataset's latest source is not a root source.
    NotRoot,
}

/// The first source declared among blocks `bs[i..]` (newest first).
pub open spec fn latest_source_from(bs: Seq<MetadataBlock>, i: int) -> Option<DatasetSource>
    decreases bs.len() - i,
{
    if i < 0 || i >= bs.len() {
        None
    } else if bs[i].source is Some {
        bs[i].source
    } else {
        latest_source_from(bs, i + 1)
    }
}

/// The first watermark declared among blocks `bs[i..]` (newest first).
pub open spec fn latest_watermark_from(bs: Seq<MetadataBlock>, i: int) -> Option<i64>
    decreases bs.len() - i,
{
    if i < 0 || i >= bs.len() {
        None
    } else if bs[i].output_watermark is Some {
        bs[i].output_watermark
    } else {
        latest_watermark_from(bs, i + 1)
    }
}

/// A block that commits no records and repeats the current watermark brings
/// nothing new.
pub open spec fn brings_nothing(c: MetadataChain, block: MetadataBlock) -> bool {
    block.output_slice is None && block.output_watermark == latest_watermark_from(
        c.blocks_from_head(),
        0,
    )
}

/// The newest source that a chain declares.
pub fn latest_source(chain: &MetadataChain) -> (r: &DatasetSource)
    requires
        chain.wf(),
    ensures
        latest_source_from(chain.blocks_from_head(), 0) == Some(*r),
{
    let ghost bs = chain.blocks_from_head();
    let n = chain.len();
    assert(n >= 1 && chain@[0].source is Some) by {
        reveal(chain_wf);
    }
    assert(bs[n - 1] == chain@[0]);
    let mut i: usize = 0;
    while i < n - 1 && chain.block_from_head(i).source.is_none()
        invariant
            n == bs.len(),
            n == chain@.len(),
            n >= 1,
            bs == chain.blocks_from_head(),
            bs[n - 1].source is Some,
            0 <= i <= n - 1,
            latest_source_from(bs, 0) == latest_source_from(bs, i as int),
        decreases n - i,
    {
        i += 1;
    }
    match &chain.block_from_head(i).source {
        Some(s) => s,
        None => {
            proof {
                assert(false);
            }
            &chain.block_from_head(n - 1).source.as_ref().unwrap()
        },
    }
}

/// The newest watermark that a chain declares.
pub fn latest_watermark(chain: &MetadataChain) -> (r: Option<i64>)
    ensures
        r == latest_watermark_from(chain.blocks_from_head(), 0),
{
    let ghost bs = chain.blocks_from_head();
    let n = chain.len();
    let mut i: usize = 0;
    while i < n
        invariant
            n == bs.len(),
            n == chain@.len(),
            bs == chain.blocks_from_head(),
            0 <= i <= n,
            latest_watermark_from(bs, 0) == latest_watermark_from(bs, i as int),
        decreases n - i,
    {
        let w = chain.block_from_head(i).output_watermark;
        if w.is_some() {
            return w;
        }
        i += 1;
    }
    None
}

pub struct IngestServiceImpl {
    volume_layout: VolumeLayout,
}

impl IngestServiceImpl {
    pub closed spec fn volume(&self) -> VolumeLayout {
        self.volume_layout
    }

    pub fn new(volume_layout: &VolumeLayout) -> (r: IngestServiceImpl)
        ensures
            r.volume().data_dir@ == volume_layout.data_dir@,
            r.volume().checkpoints_dir@ == volume_layout.checkpoints_dir@,
            r.volume().cache_dir@ == volume_layout.cache_dir@,
    {
        IngestServiceImpl {
            volume_layout: VolumeLayout {
                data_dir: volume_layout.data_dir.clone(),
                checkpoints_dir: volume_layout.checkpoints_dir.clone(),
                cache_dir: volume_layout.cache_dir.clone(),
            },
        }
    }

    /// The request for an ingest run: the newest declared source, which must
    /// be a root source, with the dataset's vocabulary and directories.
    pub fn get_ingest_request(&self, repo: &MetadataRepositoryImpl, dataset_id: &DatasetIDBuf) -> (r:
        Result<IngestRequest, IngestError>)
        requires
            repo.wf(),
        ensures
            !repo.has(dataset_id@) ==> r matches Err(IngestError::Internal(DomainError::DoesNotExist { .. })),
            repo.has(dataset_id@) ==> ({
                let src = latest_source_from(repo.chain_of(dataset_id@).blocks_from_head(), 0);
                match src {
                    Some(DatasetSource::Root(root)) => r matches Ok(req) && {
                        &&& req.dataset_id@ == dataset_id@
                        &&& req.source.same(&root)
                        &&& req.event_time is None
                        &&& req.dataset_vocab.same(&repo.summary_of(dataset_id@).vocab)
                        &&& req.ingest_path@ == joined(self.volume().cache_dir@, dataset_id@)
                        &&& req.data_dir@ == joined(self.volume().data_dir@, dataset_id@)
                        &&& req.checkpoints_dir@ == joined(self.volume().checkpoints_dir@, dataset_id@)
                    },
                    _ => r matches Err(IngestError::NotRoot),
                }
            }),
    {
        let chain = match repo.get_metadata_chain(dataset_id) {
            Ok(c) => c,
            Err(e) => {
                return Err(IngestError::Internal(e));
            },
        };
        let summary = match repo.get_summary(dataset_id) {
            Ok(s) => s,
            Err(e) => {
                return Err(IngestError::Internal(e));
            },
        };
        let root: &DatasetSourceRoot = match latest_source(chain) {
            DatasetSource::Root(root) => root,
            DatasetSource::Derivative(_) => {
                return Err(IngestError::NotRoot);
            },
        };
        let layout = DatasetLayout::new(&self.volume_layout, dataset_id);
        Ok(
            IngestRequest {
                dataset_id: dataset_id.copied(),
                ingest_path: layout.cache_dir,
                event_time: None,
                source: root.copied(),
                dataset_vocab: summary.vocab.copied(),
                checkpoints_dir: layout.checkpoints_dir,
                data_dir: layout.data_dir,
            },
        )
    }

    /// Commits the block an ingest run produced, unless it brings nothing new.
    pub fn commit_ingest(repo: &mut MetadataRepositoryImpl, dataset_id: &DatasetIDBuf, block: MetadataBlock) -> (r:
        Result<IngestResult, IngestError>)
        requires
            old(repo).wf(),
        ensures
            final(repo).wf(),
            r is Err ==> *final(repo) == *old(repo),
            !old(repo).has(dataset_id@) ==> r matches Err(IngestError::Internal(DomainError::DoesNotExist { .. })),
            old(repo).has(dataset_id@) && r is Err ==> r matches Err(IngestError::EngineError(_)),
            old(repo).has(dataset_id@) ==> {
                let c = old(repo).chain_of(dataset_id@);
                &&& brings_nothing(c, block) ==> (r matches Ok(IngestResult::UpToDate) && *final(repo)
                    == *old(repo))
                &&& !brings_nothing(c, block) ==> (r is Ok <==> block.system_time >= c.head().system_time)
                &&& !brings_nothing(c, block) && r is Ok ==> (r matches Ok(IngestResult::Updated { block_hash })
                    && committed(*old(repo), *final(repo), dataset_id@, block, block_hash@))
            },
    {
        let chain = match repo.get_metadata_chain(dataset_id) {
            Ok(c) => c,
            Err(e) => {
                return Err(IngestError::Internal(e));
            },
        };
        let latest = latest_watermark(chain);
        if block.output_slice.is_none() && block.output_watermark == latest {
            return Ok(IngestResult::UpToDate);
        }
        let ghost b = block;
        match commit_block(repo, dataset_id, block) {
            Ok(h) => {
                assert(committed(*old(repo), *repo, dataset_id@, b, h@));
                Ok(IngestResult::Updated { block_hash: h })
            },
            Err(TransformError::EngineError(e)) => Err(IngestError::EngineError(e)),
            Err(TransformError::Internal(e)) => Err(IngestError::Internal(e)),
            Err(_) => {
                proof {
                    assert(false);
                }
                Err(IngestError::NotRoot)
            },
        }
    }

    /// Brings a root dataset up to date: runs the ingest on the engine and
    /// commits what it returns.
    pub fn ingest<E: Engine>(&self, repo: &mut MetadataRepositoryImpl, dataset_id: &DatasetIDBuf, engine: &E) -> (r:
        Result<IngestResult, IngestError>)
        requires
            old(repo).wf(),
        ensures
            final(repo).wf(),
            r is Err ==> *final(repo) == *old(repo),
            !old(repo).has(dataset_id@) ==> r matches Err(IngestError::Internal(DomainError::DoesNotExist { .. })),
            old(repo).has(dataset_id@) && !(latest_source_from(
                old(repo).chain_of(dataset_id@).blocks_from_head(),
                0,
            ) matches Some(DatasetSource::Root(_))) ==> r matches Err(IngestError::NotRoot),
            old(repo).has(dataset_id@) && (latest_source_from(
                old(repo).chain_of(dataset_id@).blocks_from_head(),
                0,
            ) matches Some(DatasetSource::Root(_))) ==> (r is Ok || r matches Err(IngestError::EngineError(_))),
            r matches Ok(IngestResult::UpToDate) ==> *final(repo) == *old(repo),
            r matches Ok(IngestResult::Updated { block_hash }) ==> old(repo).has(dataset_id@)
                && exists|b: MetadataBlock| committed(*old(repo), *final(repo), dataset_id@, b, block_hash@),
    {
        let request = match self.get_ingest_request(repo, dataset_id) {
            Ok(req) => req,
            Err(e) => {
                return Err(e);
            },
        };
        let response = match engine.ingest(request) {
            Ok(resp) => resp,
            Err(e) => {
                return Err(IngestError::EngineError(e));
            },
        };
        let ghost b = response.block;
        let r = Self::commit_ingest(repo, dataset_id, response.block);
        proof {
            if r is Ok && r->Ok_0 is Updated {
                assert(committed(*old(repo), *repo, dataset_id@, b, r->Ok_0->block_hash@));
            }
        }
        r
    }

    /// Updates the summary after an ingest: nothing to do when the dataset
    /// was up to date.
    pub fn update_summary(
        &self,
        repo: &mut MetadataRepositoryImpl,
        dataset_id: &DatasetIDBuf,
        result: &IngestResult,
        data_size: u64,
    ) -> (r: Result<(), IngestError>)
        requires
            old(repo).wf(),
        ensures
            final(repo).wf(),
            final(repo).ids() == old(repo).ids(),
            final(repo).chains() == old(repo).chains(),
            result is UpToDate ==> *final(repo) == *old(repo) && r is Ok,
            r is Err ==> *final(repo) == *old(repo),
            result matches IngestResult::Updated { block_hash } ==> (r is Ok <==> old(repo).has(
                dataset_id@,
            ) && exists|k: int|
                0 <= k < old(repo).chain_of(dataset_id@)@.len() && old(repo).chain_of(
                    dataset_id@,
                )@[k].block_hash@ == block_hash@),
            result matches IngestResult::Updated { block_hash } ==> (r is Ok ==> exists|k: int|
                first_with_hash(old(repo).chain_of(dataset_id@)@, block_hash@, k) && summary_after(
                    old(repo).summary_of(dataset_id@),
                    final(repo).summary_of(dataset_id@),
                    old(repo).chain_of(dataset_id@)@[k],
                    data_size,
                )),
    {
        match result {
            IngestResult::UpToDate => Ok(()),
            IngestResult::Updated { block_hash } => {
                match update_summary_after(repo, dataset_id, block_hash.as_str(), data_size) {
                    Ok(()) => Ok(()),
                    Err(e) => Err(IngestError::Internal(e)),
                }
            },
        }
    }
}

} // verus!

use std::cell::{Cell, RefCell};

use kamu_core::dataset_id::DatasetIDBuf;
use kamu_core::engine::{
    Engine, ExecuteQueryRequest, ExecuteQueryResponse, IngestRequest, IngestResponse,
};
use kamu_core::error::{DomainError, EngineError};
use kamu_core::metadata::{DatasetKind, DatasetSummary, DatasetVocabulary};
use kamu_core::metadata_chain::MetadataChain;
use kamu_core::ingest::{IngestResult, IngestServiceImpl};
use kamu_core::layout::{VolumeLayout, WorkspaceLayout};
use kamu_core::metadata::{
    DataSlice, DatasetSnapshot, DatasetSource, DatasetSourceDerivative, DatasetSourceRoot,
    MetadataBlock, Transform,
};
use kamu_core::pull::{plan_pull, tally, CommandError, PullCommand, PullError, PullResult};
use kamu_core::repository::MetadataRepositoryImpl;
use kamu_core::time_interval::TimeInterval;
use kamu_core::transform::{TransformResult, TransformServiceImpl};

struct ScriptedEngine {
    blocks: RefCell<Vec<MetadataBlock>>,
    calls: Cell<usize>,
    last_transform: RefCell<Option<ExecuteQueryRequest>>,
}

impl ScriptedEngine {
    fn new(blocks: Vec<MetadataBlock>) -> Self {
        ScriptedEngine { blocks: RefCell::new(blocks), calls: Cell::new(0), last_transform: RefCell::new(None) }
    }

    fn next_block(&self) -> MetadataBlock {
        self.calls.set(self.calls.get() + 1);
        self.blocks.borrow_mut().remove(0)
    }
}

impl Engine for ScriptedEngine {
    fn ingest(&self, _request: IngestRequest) -> Result<IngestResponse, EngineError> {
        Ok(IngestResponse { block: self.next_block() })
    }

    fn transform(&self, request: ExecuteQueryRequest) -> Result<ExecuteQueryResponse, EngineError> {
        *self.last_transform.borrow_mut() = Some(request);
        Ok(ExecuteQueryResponse { block: self.next_block(), data_file_name: None })
    }
}

fn id(s: &str) -> DatasetIDBuf {
    DatasetIDBuf::try_from(s).unwrap()
}

fn root(name: &str) -> DatasetSnapshot {
    DatasetSnapshot {
        id: id(name),
        source: DatasetSource::Root(DatasetSourceRoot {
            fetch: "kind: url\nurl: ftp://kamu.dev/test.zip".to_owned(),
            prepare: None,
            read: "kind: csv".to_owned(),
            preprocess: None,
            merge: "kind: snapshot".to_owned(),
            vocab: None,
        }),
        vocab: None,
    }
}

fn derivative(name: &str, inputs: &[&str]) -> DatasetSnapshot {
    DatasetSnapshot {
        id: id(name),
        source: DatasetSource::Derivative(DatasetSourceDerivative {
            inputs: inputs.iter().map(|s| id(s)).collect(),
            transform: Transform {
                engine: "sparkSQL".to_owned(),
                additional_properties: vec![("query".to_owned(), "SELECT * FROM a".to_owned())],
            },
        }),
        vocab: None,
    }
}

fn block(t: i64, records: Option<u64>, watermark: Option<i64>) -> MetadataBlock {
    MetadataBlock {
        block_hash: String::new(),
        prev_block_hash: String::new(),
        system_time: t,
        source: None,
        output_slice: records.map(|n| DataSlice {
            hash: "ffaabb".to_owned(),
            interval: TimeInterval::singleton(t),
            num_records: n,
        }),
        output_watermark: watermark,
        input_slices: None,
    }
}

fn volume() -> VolumeLayout {
    VolumeLayout::new("/ws/volume")
}

fn repo() -> MetadataRepositoryImpl {
    MetadataRepositoryImpl::new(&WorkspaceLayout {
        datasets_dir: "/ws/datasets".to_owned(),
        local_volume_dir: "/ws/volume".to_owned(),
    })
}

fn wave_names(w: &[Vec<DatasetIDBuf>]) -> Vec<Vec<String>> {
    w.iter().map(|v| v.iter().map(|i| i.as_str().to_owned()).collect()).collect()
}

#[test]
fn pull_root_commits_records() {
    let mut r = repo();
    r.add_dataset_at(root("kamu.test"), 100).unwrap();
    let svc = IngestServiceImpl::new(&volume());
    let engine = ScriptedEngine::new(vec![block(200, Some(10), None)]);
    let res = svc.ingest(&mut r, &id("kamu.test"), &engine).unwrap();
    let hash = match &res {
        IngestResult::Updated { block_hash } => block_hash.clone(),
        IngestResult::UpToDate => panic!("expected an update"),
    };
    svc.update_summary(&mut r, &id("kamu.test"), &res, 4096).unwrap();
    let s = r.get_summary(&id("kamu.test")).unwrap();
    assert_eq!(s.num_records, 10);
    assert_eq!(s.last_pulled, Some(200));
    assert_eq!(s.data_size, 4096);
    let chain = r.get_metadata_chain(&id("kamu.test")).unwrap();
    assert_eq!(chain.len(), 2);
    assert_eq!(chain.block_from_head(0).block_hash, hash);
    assert_eq!(chain.block_from_head(0).prev_block_hash, chain.block_from_head(1).block_hash);
    assert_eq!(engine.calls.get(), 1);
}

#[test]
fn pull_root_again_without_new_data() {
    let mut r = repo();
    r.add_dataset_at(root("kamu.test"), 100).unwrap();
    let svc = IngestServiceImpl::new(&volume());
    let engine = ScriptedEngine::new(vec![
        block(200, Some(10), None),
        block(300, None, None),
        block(400, None, Some(350)),
    ]);
    let first = svc.ingest(&mut r, &id("kamu.test"), &engine).unwrap();
    svc.update_summary(&mut r, &id("kamu.test"), &first, 0).unwrap();
    let second = svc.ingest(&mut r, &id("kamu.test"), &engine).unwrap();
    assert!(matches!(second, IngestResult::UpToDate));
    assert_eq!(r.get_metadata_chain(&id("kamu.test")).unwrap().len(), 2);
    let third = svc.ingest(&mut r, &id("kamu.test"), &engine).unwrap();
    assert!(matches!(third, IngestResult::Updated { .. }));
    svc.update_summary(&mut r, &id("kamu.test"), &third, 0).unwrap();
    let s = r.get_summary(&id("kamu.test")).unwrap();
    assert_eq!(s.num_records, 0);
    assert_eq!(s.last_pulled, Some(400));
    let results = vec![
        (id("kamu.test"), Ok(PullResult::UpToDate)),
        (id("kamu.test"), Ok(PullResult::Updated { block_hash: "x".to_owned() })),
    ];
    let t = tally(&results);
    assert_eq!((t.updated, t.up_to_date, t.errors), (1, 1, 0));
}

#[test]
fn recursive_pull_without_new_data_is_up_to_date() {
    let mut r = repo();
    r.add_dataset_at(root("a"), 1).unwrap();
    r.add_dataset_at(root("b"), 1).unwrap();
    r.add_dataset_at(derivative("d.out", &["a", "b"]), 2).unwrap();
    let waves = plan_pull(&r, &vec![id("d.out")], true, false).unwrap();
    assert_eq!(wave_names(&waves), vec![vec!["a", "b"], vec!["d.out"]]);
    let ingest = IngestServiceImpl::new(&volume());
    let transform = TransformServiceImpl::new(&volume());
    let engine = ScriptedEngine::new(vec![block(5, None, None), block(5, None, None)]);
    let mut results: Vec<(DatasetIDBuf, Result<PullResult, PullError>)> = Vec::new();
    for w in &waves {
        for ds in w {
            let kind = r.get_summary(ds).unwrap().kind;
            let res = match kind {
                DatasetKind::Root => match ingest.ingest(&mut r, ds, &engine) {
                    Ok(IngestResult::UpToDate) => Ok(PullResult::UpToDate),
                    Ok(IngestResult::Updated { block_hash }) => Ok(PullResult::Updated { block_hash }),
                    Err(e) => Err(PullError::IngestError(e)),
                },
                DatasetKind::Derivative => match transform.transform(&mut r, ds, &engine) {
                    Ok(TransformResult::UpToDate) => Ok(PullResult::UpToDate),
                    Ok(TransformResult::Updated { block_hash }) => Ok(PullResult::Updated { block_hash }),
                    Err(e) => Err(PullError::TransformError(e)),
                },
            };
            results.push((ds.clone(), res));
        }
    }
    assert_eq!(results.len(), 3);
    assert!(results.iter().all(|(_, x)| matches!(x, Ok(PullResult::UpToDate))));
    assert_eq!(engine.calls.get(), 2);
    let t = tally(&results);
    assert_eq!((t.updated, t.up_to_date, t.errors), (0, 3, 0));
}

#[test]
fn pull_without_ids_or_flags_is_a_usage_error() {
    match PullCommand::new(vec![], false, false).dataset_ids() {
        Err(CommandError::UsageError { msg }) => assert_eq!(msg, "Specify a dataset or pass --all"),
        _ => panic!("expected a usage error"),
    }
    match PullCommand::new(vec!["a".to_owned()], true, false).dataset_ids() {
        Err(CommandError::UsageError { msg }) => assert_eq!(msg, "Invalid combination of arguments"),
        _ => panic!("expected a usage error"),
    }
    assert!(PullCommand::new(vec![], true, true).dataset_ids().unwrap().is_empty());
    let ids = PullCommand::new(vec!["a".to_owned(), "b.c".to_owned()], false, true).dataset_ids().unwrap();
    assert_eq!(ids.iter().map(|i| i.as_str()).collect::<Vec<_>>(), vec!["a", "b.c"]);
    match PullCommand::new(vec!["a".to_owned(), "1bad".to_owned()], false, false).dataset_ids() {
        Err(CommandError::InvalidDatasetID(e)) => assert_eq!(e.invalid_id, "1bad"),
        _ => panic!("expected an invalid id"),
    }
}

#[test]
fn diamond_pull_runs_in_waves() {
    let mut r = repo();
    r.add_dataset_at(root("r"), 1).unwrap();
    r.add_dataset_at(derivative("a", &["r"]), 2).unwrap();
    r.add_dataset_at(derivative("b", &["r"]), 2).unwrap();
    r.add_dataset_at(derivative("c", &["a", "b"]), 3).unwrap();
    let all = plan_pull(&r, &vec![], false, true).unwrap();
    assert_eq!(wave_names(&all), vec![vec!["r"], vec!["a", "b"], vec!["c"]]);
    let rec = plan_pull(&r, &vec![id("c")], true, false).unwrap();
    assert_eq!(wave_names(&rec), vec![vec!["r"], vec!["a", "b"], vec!["c"]]);
    let only = plan_pull(&r, &vec![id("c"), id("a")], false, false).unwrap();
    assert_eq!(wave_names(&only), vec![vec!["a"], vec!["c"]]);
    assert!(plan_pull(&r, &vec![id("nope")], false, false).is_err());
}

#[test]
fn fresh_derivative_is_up_to_date_without_engine_call() {
    let mut r = repo();
    r.add_dataset_at(root("a"), 1).unwrap();
    r.add_dataset_at(derivative("d.out", &["a"]), 2).unwrap();
    let transform = TransformServiceImpl::new(&volume());
    assert!(transform.get_next_operation(&r, &id("d.out")).unwrap().is_none());
    let engine = ScriptedEngine::new(vec![]);
    let res = transform.transform(&mut r, &id("d.out"), &engine).unwrap();
    assert!(matches!(res, TransformResult::UpToDate));
    assert_eq!(engine.calls.get(), 0);
    assert_eq!(r.get_metadata_chain(&id("d.out")).unwrap().len(), 1);
}

#[test]
fn derivative_processes_new_input_block() {
    let mut r = repo();
    r.add_dataset_at(root("a"), 1).unwrap();
    r.add_dataset_at(derivative("d.out", &["a"]), 2).unwrap();
    let ingest = IngestServiceImpl::new(&volume());
    let root_engine = ScriptedEngine::new(vec![block(10, Some(5), Some(8))]);
    let res = ingest.ingest(&mut r, &id("a"), &root_engine).unwrap();
    ingest.update_summary(&mut r, &id("a"), &res, 0).unwrap();

    let transform = TransformServiceImpl::new(&volume());
    let req = transform.get_next_operation(&r, &id("d.out")).unwrap().unwrap();
    assert_eq!(req.input_slices.len(), 1);
    assert_eq!(req.input_slices[0].0.as_str(), "a");
    assert_eq!(req.input_slices[0].1.interval, TimeInterval::unbounded_closed_right(10));
    assert_eq!(req.input_slices[0].1.explicit_watermarks.len(), 1);
    assert_eq!(req.input_slices[0].1.explicit_watermarks[0].system_time, 10);
    assert_eq!(req.input_slices[0].1.explicit_watermarks[0].event_time, 8);
    assert_eq!(req.data_dirs[0].1, "/ws/volume/data/a");
    assert_eq!(req.data_dirs[1].1, "/ws/volume/data/d.out");
    assert_eq!(req.checkpoints_dir, "/ws/volume/checkpoints/d.out");
    assert_eq!(req.dataset_vocabs.len(), 2);

    let mut out_block = block(20, Some(3), None);
    out_block.input_slices = Some(vec![DataSlice {
        hash: "aa".to_owned(),
        interval: TimeInterval::unbounded_closed_right(10),
        num_records: 5,
    }]);
    let engine = ScriptedEngine::new(vec![out_block]);
    let res = transform.transform(&mut r, &id("d.out"), &engine).unwrap();
    assert_eq!(engine.calls.get(), 1);
    assert!(matches!(res, TransformResult::Updated { .. }));
    assert_eq!(r.get_metadata_chain(&id("d.out")).unwrap().len(), 2);
    transform.update_summary(&mut r, &id("d.out"), &res, 7).unwrap();
    let s = r.get_summary(&id("d.out")).unwrap();
    assert_eq!(s.num_records, 3);
    assert_eq!(s.last_pulled, Some(20));
    assert_eq!(s.data_size, 7);

    // Nothing new since: up to date.
    assert!(transform.get_next_operation(&r, &id("d.out")).unwrap().is_none());

    // A newer input block is processed from just after what was processed.
    let res = ingest.ingest(&mut r, &id("a"), &ScriptedEngine::new(vec![block(30, Some(2), None)])).unwrap();
    assert!(matches!(res, IngestResult::Updated { .. }));
    let req = transform.get_next_operation(&r, &id("d.out")).unwrap().unwrap();
    assert_eq!(req.input_slices[0].1.interval, TimeInterval::left_half_open(10, 30));
    assert!(req.input_slices[0].1.explicit_watermarks.is_empty());
}

#[test]
fn engine_block_older_than_head_is_refused() {
    let mut r = repo();
    r.add_dataset_at(root("a"), 100).unwrap();
    let ingest = IngestServiceImpl::new(&volume());
    let engine = ScriptedEngine::new(vec![block(50, Some(1), None)]);
    assert!(ingest.ingest(&mut r, &id("a"), &engine).is_err());
    assert_eq!(r.get_metadata_chain(&id("a")).unwrap().len(), 1);
}

#[test]
fn a_dependency_cycle_is_reported_not_planned() {
    let mut r = repo();
    for (name, dep) in [("a", "b"), ("b", "a")] {
        let mut g = block(1, None, None);
        g.source = Some(derivative(name, &[dep]).source);
        let (chain, _) = MetadataChain::create(g);
        let summary = DatasetSummary {
            id: id(name),
            kind: DatasetKind::Derivative,
            dependencies: vec![id(dep)],
            last_pulled: None,
            num_records: 0,
            data_size: 0,
            vocab: DatasetVocabulary { system_time_column: None, event_time_column: None },
        };
        r.restore(id(name), chain, summary).unwrap();
    }
    assert!(matches!(plan_pull(&r, &vec![], false, true), Err(DomainError::CircularDependency { .. })));
    assert!(matches!(plan_pull(&r, &vec![id("a")], false, false), Ok(_)));
}

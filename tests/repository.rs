use kamu_core::dataset_id::DatasetIDBuf;
use kamu_core::error::{DomainError, ResourceKind};
use kamu_core::layout::WorkspaceLayout;
use kamu_core::metadata::{
    DatasetKind, DatasetSnapshot, DatasetSource, DatasetSourceDerivative, DatasetSourceRoot,
    DatasetVocabulary, Transform,
};
use kamu_core::repository::MetadataRepositoryImpl;

fn id(s: &str) -> DatasetIDBuf {
    DatasetIDBuf::try_from(s).unwrap()
}

fn root(name: &str) -> DatasetSnapshot {
    DatasetSnapshot {
        id: id(name),
        source: DatasetSource::Root(DatasetSourceRoot {
            fetch: "kind: url".to_owned(),
            prepare: None,
            read: "kind: csv".to_owned(),
            preprocess: None,
            merge: "kind: append".to_owned(),
            vocab: None,
        }),
        vocab: Some(DatasetVocabulary {
            system_time_column: None,
            event_time_column: Some("date".to_owned()),
        }),
    }
}

fn derivative(name: &str, inputs: &[&str]) -> DatasetSnapshot {
    DatasetSnapshot {
        id: id(name),
        source: DatasetSource::Derivative(DatasetSourceDerivative {
            inputs: inputs.iter().map(|s| id(s)).collect(),
            transform: Transform { engine: "sparkSQL".to_owned(), additional_properties: vec![] },
        }),
        vocab: None,
    }
}

fn repo() -> MetadataRepositoryImpl {
    MetadataRepositoryImpl::new(&WorkspaceLayout {
        datasets_dir: "/ws/datasets".to_owned(),
        local_volume_dir: "/ws/volume".to_owned(),
    })
}

fn names(v: &[DatasetIDBuf]) -> Vec<String> {
    v.iter().map(|i| i.as_str().to_owned()).collect()
}

#[test]
fn add_datasets_orders_by_dependency() {
    let mut r = repo();
    let res = r.add_datasets(vec![derivative("d", &["r"]), root("r")]);
    let ids: Vec<&str> = res.iter().map(|(i, _)| i.as_str()).collect();
    assert_eq!(ids, vec!["r", "d"]);
    assert!(res.iter().all(|(_, x)| x.is_ok()));
    assert_eq!(names(&r.list_datasets()), vec!["r", "d"]);
}

#[test]
fn sort_keeps_inputs_first_for_longer_batches() {
    let r = repo();
    let (ordered, stuck) = r.sort_snapshots_in_dependency_order(vec![
        derivative("c", &["a", "b"]),
        derivative("b", &["r"]),
        derivative("a", &["r"]),
        root("r"),
    ]);
    assert!(stuck.is_empty());
    let order: Vec<&str> = ordered.iter().map(|s| s.id.as_str()).collect();
    assert_eq!(order, vec!["r", "b", "a", "c"]);
}

#[test]
fn cyclic_batch_is_reported() {
    let mut r = repo();
    let res = r.add_datasets(vec![derivative("x", &["y"]), derivative("y", &["x"]), root("z")]);
    assert_eq!(res.len(), 3);
    assert_eq!(res[0].0.as_str(), "z");
    assert!(res[0].1.is_ok());
    for (_, e) in &res[1..] {
        assert!(matches!(e, Err(DomainError::CircularDependency { .. })));
    }
}

#[test]
fn add_dataset_checks_references() {
    let mut r = repo();
    match r.add_dataset(derivative("d", &["missing"])) {
        Err(DomainError::MissingReference { from_id, to_id, .. }) => {
            assert_eq!(from_id, "d");
            assert_eq!(to_id, "missing");
        }
        _ => panic!("expected a missing reference"),
    }
    assert!(r.add_dataset(root("r")).is_ok());
    match r.add_dataset(root("r")) {
        Err(DomainError::AlreadyExists { kind, id }) => {
            assert_eq!(kind, ResourceKind::Dataset);
            assert_eq!(id, "r");
        }
        _ => panic!("expected already exists"),
    }
}

#[test]
fn add_dataset_writes_genesis_and_summary() {
    let mut r = repo();
    r.add_dataset_at(root("a"), 100).unwrap();
    r.add_dataset_at(derivative("d.out", &["a"]), 150).unwrap();
    let chain = r.get_metadata_chain(&id("d.out")).unwrap();
    assert_eq!(chain.len(), 1);
    let g = chain.block_from_head(0);
    assert_eq!(g.system_time, 150);
    assert_eq!(g.prev_block_hash, "");
    assert!(g.output_slice.is_none());
    let s = r.get_summary(&id("d.out")).unwrap();
    assert_eq!(s.kind, DatasetKind::Derivative);
    assert_eq!(names(&s.dependencies), vec!["a"]);
    assert_eq!(s.num_records, 0);
    assert_eq!(s.last_pulled, None);
    let sa = r.get_summary(&id("a")).unwrap();
    assert_eq!(sa.kind, DatasetKind::Root);
    assert_eq!(sa.vocab.event_time_column.as_deref(), Some("date"));
    assert_eq!(r.get_dataset_metadata_dir(&id("a")), "/ws/datasets/a");
}

#[test]
fn delete_with_dependents_is_refused() {
    let mut r = repo();
    r.add_dataset_at(root("a"), 1).unwrap();
    r.add_dataset_at(root("b"), 1).unwrap();
    r.add_dataset_at(derivative("d.out", &["a", "b"]), 2).unwrap();
    match r.delete_dataset(&id("a")) {
        Err(DomainError::DanglingReference { from_kinds_ids, to_kind, to_id }) => {
            assert_eq!(from_kinds_ids.len(), 1);
            assert_eq!(from_kinds_ids[0].0, ResourceKind::Dataset);
            assert_eq!(from_kinds_ids[0].1, "d.out");
            assert_eq!(to_kind, ResourceKind::Dataset);
            assert_eq!(to_id, "a");
        }
        _ => panic!("expected a dangling reference"),
    }
    assert!(r.dataset_exists(&id("a")));
    assert!(r.get_metadata_chain(&id("a")).is_ok());
}

#[test]
fn delete_without_dependents_removes_dataset() {
    let mut r = repo();
    r.add_dataset_at(root("a"), 1).unwrap();
    r.add_dataset_at(derivative("d.out", &["a"]), 2).unwrap();
    assert!(r.delete_dataset(&id("d.out")).is_ok());
    assert!(!r.dataset_exists(&id("d.out")));
    assert!(r.delete_dataset(&id("a")).is_ok());
    assert!(matches!(r.delete_dataset(&id("a")), Err(DomainError::DoesNotExist { .. })));
    assert!(r.list_datasets().is_empty());
}

fn permutations(items: Vec<usize>) -> Vec<Vec<usize>> {
    if items.len() <= 1 {
        return vec![items];
    }
    let mut out = Vec::new();
    for i in 0..items.len() {
        let mut rest = items.clone();
        let first = rest.remove(i);
        for mut p in permutations(rest) {
            p.insert(0, first);
            out.push(p);
        }
    }
    out
}

#[test]
fn every_permutation_is_added_inputs_first() {
    let make = |k: usize| match k {
        0 => root("r"),
        1 => derivative("a", &["r"]),
        2 => derivative("b", &["r", "a"]),
        _ => derivative("c", &["b", "a"]),
    };
    let deps: Vec<(&str, Vec<&str>)> =
        vec![("r", vec![]), ("a", vec!["r"]), ("b", vec!["r", "a"]), ("c", vec!["b", "a"])];
    for p in permutations(vec![0, 1, 2, 3]) {
        let mut r = repo();
        let res = r.add_datasets(p.iter().map(|k| make(*k)).collect());
        assert!(res.iter().all(|(_, x)| x.is_ok()));
        let order: Vec<&str> = res.iter().map(|(i, _)| i.as_str()).collect();
        for (name, inputs) in &deps {
            let at = order.iter().position(|x| x == name).unwrap();
            for input in inputs {
                assert!(order.iter().position(|x| x == input).unwrap() < at);
            }
        }
    }
}

#[test]
fn ordered_batch_keeps_its_order() {
    let r = repo();
    let (ordered, stuck) = r.sort_snapshots_in_dependency_order(vec![
        root("r"),
        derivative("b", &["r"]),
        root("q"),
        derivative("a", &["q", "b"]),
    ]);
    assert!(stuck.is_empty());
    let order: Vec<&str> = ordered.iter().map(|s| s.id.as_str()).collect();
    assert_eq!(order, vec!["r", "b", "q", "a"]);
}

#[test]
fn batch_results_follow_the_repository_as_it_grows() {
    let mut r = repo();
    r.add_dataset_at(root("r"), 1).unwrap();
    let res = r.add_datasets(vec![root("r"), derivative("d", &["r", "x"]), derivative("e", &["r"])]);
    let view: Vec<(&str, bool)> = res.iter().map(|(i, x)| (i.as_str(), x.is_ok())).collect();
    assert_eq!(view, vec![("r", false), ("d", false), ("e", true)]);
    assert!(matches!(res[0].1, Err(DomainError::AlreadyExists { .. })));
    assert!(matches!(res[1].1, Err(DomainError::MissingReference { .. })));
    assert_eq!(names(&r.list_datasets()), vec!["r", "e"]);
}

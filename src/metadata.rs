//! Dataset sources, snapshots, slices, blocks and summaries.

use vstd::prelude::*;

use crate::dataset_id::DatasetIDBuf;
use crate::time_interval::TimeInterval;

verus! {

#[derive(Debug, Clone, Copy, PartialEq, Eq, Structural)]
pub enum DatasetKind {
    Root,
    Derivative,
}

/// Column-name conventions of a dataset.
#[derive(Debug, Clone)]
pub struct DatasetVocabulary {
    pub system_time_column: Option<String>,
    pub event_time_column: Option<String>,
}

impl DatasetVocabulary {
    pub open spec fn same(&self, other: &DatasetVocabulary) -> bool {
        self.system_time_column.deep_view() == other.system_time_column.deep_view()
            && self.event_time_column.deep_view() == other.event_time_column.deep_view()
    }

    pub fn copied(&self) -> (r: DatasetVocabulary)
        ensures
            r.same(self),
    {
        DatasetVocabulary {
            system_time_column: copy_opt_string(&self.system_time_column),
            event_time_column: copy_opt_string(&self.event_time_column),
        }
    }
}

impl Default for DatasetVocabulary {
    fn default() -> (r: DatasetVocabulary)
        ensures
            r.system_time_column is None,
            r.event_time_column is None,
    {
        DatasetVocabulary { system_time_column: None, event_time_column: None }
    }
}

pub fn copy_opt_string(s: &Option<String>) -> (r: Option<String>)
    ensures
        r.deep_view() == s.deep_view(),
{
    match s {
        Some(v) => Some(v.clone()),
        None => None,
    }
}

/// A transformation run by an engine: the engine's name and its other
/// properties, each a key and its value in manifest text.
#[derive(Debug, Clone)]
pub struct Transform {
    pub engine: String,
    pub additional_properties: Vec<(String, String)>,
}

pub open spec fn props_view(p: Seq<(String, String)>) -> Seq<(Seq<char>, Seq<char>)> {
    p.map_values(|kv: (String, String)| (kv.0@, kv.1@))
}

impl Transform {
    pub open spec fn same(&self, other: &Transform) -> bool {
        self.engine@ == other.engine@ && props_view(self.additional_properties@) == props_view(
            other.additional_properties@,
        )
    }

    pub fn copied(&self) -> (r: Transform)
        ensures
            r.same(self),
    {
        let mut props: Vec<(String, String)> = Vec::new();
        let n = self.additional_properties.len();
        let mut i: usize = 0;
        while i < n
            invariant
                n == self.additional_properties@.len(),
                0 <= i <= n,
                props_view(props@) == props_view(self.additional_properties@.subrange(0, i as int)),
            decreases n - i,
        {
            let kv = &self.additional_properties[i];
            props.push((kv.0.clone(), kv.1.clone()));
            assert(props_view(self.additional_properties@.subrange(0, i + 1)) =~= props_view(
                self.additional_properties@.subrange(0, i as int),
            ).push((kv.0@, kv.1@)));
            assert(props_view(props@) =~= props_view(self.additional_properties@.subrange(0, i + 1)));
            i += 1;
        }
        assert(self.additional_properties@.subrange(0, n as int) =~= self.additional_properties@);
        Transform { engine: self.engine.clone(), additional_properties: props }
    }
}

/// How external data enters a root dataset. Each step is held in manifest
/// text; only the ingest engine reads it.
#[derive(Debug, Clone)]
pub struct DatasetSourceRoot {
    pub fetch: String,
    pub prepare: Option<String>,
    pub read: String,
    pub preprocess: Option<Transform>,
    pub merge: String,
    pub vocab: Option<DatasetVocabulary>,
}

impl DatasetSourceRoot {
    pub open spec fn same(&self, other: &DatasetSourceRoot) -> bool {
        &&& self.fetch@ == other.fetch@
        &&& self.prepare.deep_view() == other.prepare.deep_view()
        &&& self.read@ == other.read@
        &&& match (self.preprocess, other.preprocess) {
            (Some(a), Some(b)) => a.same(&b),
            (None, None) => true,
            _ => false,
        }
        &&& self.merge@ == other.merge@
        &&& match (self.vocab, other.vocab) {
            (Some(a), Some(b)) => a.same(&b),
            (None, None) => true,
            _ => false,
        }
    }

    pub fn copied(&self) -> (r: DatasetSourceRoot)
        ensures
            r.same(self),
    {
        DatasetSourceRoot {
            fetch: self.fetch.clone(),
            prepare: copy_opt_string(&self.prepare),
            read: self.read.clone(),
            preprocess: match &self.preprocess {
                Some(t) => Some(t.copied()),
                None => None,
            },
            merge: self.merge.clone(),
            vocab: match &self.vocab {
                Some(v) => Some(v.copied()),
                None => None,
            },
        }
    }
}

/// A dataset computed from others; the order of `inputs` is significant.
#[derive(Debug, Clone)]
pub struct DatasetSourceDerivative {
    pub inputs: Vec<DatasetIDBuf>,
    pub transform: Transform,
}

impl DatasetSourceDerivative {
    pub fn copied(&self) -> (r: DatasetSourceDerivative)
        ensures
            r.inputs.deep_view() == self.inputs.deep_view(),
            r.transform.same(&self.transform),
    {
        DatasetSourceDerivative { inputs: copy_ids(&self.inputs), transform: self.transform.copied() }
    }
}

pub fn copy_ids(ids: &Vec<DatasetIDBuf>) -> (r: Vec<DatasetIDBuf>)
    ensures
        r.deep_view() == ids.deep_view(),
{
    let mut out: Vec<DatasetIDBuf> = Vec::new();
    let n = ids.len();
    let mut i: usize = 0;
    while i < n
        invariant
            n == ids@.len(),
            0 <= i <= n,
            out@.len() == i,
            forall|j: int| 0 <= j < i ==> (#[trigger] out@[j])@ == ids@[j]@,
        decreases n - i,
    {
        let c = ids[i].copied();
        out.push(c);
        i += 1;
    }
    assert(out.deep_view() =~= ids.deep_view());
    out
}

#[derive(Debug, Clone)]
pub enum DatasetSource {
    Root(DatasetSourceRoot),
    Derivative(DatasetSourceDerivative),
}

/// The user-declared description of a dataset, consumed when it is created.
#[derive(Debug, Clone)]
pub struct DatasetSnapshot {
    pub id: DatasetIDBuf,
    pub source: DatasetSource,
    pub vocab: Option<DatasetVocabulary>,
}

impl DatasetSnapshot {
    /// The datasets this one is computed from: none for a root.
    pub open spec fn deps(&self) -> Seq<Seq<char>> {
        match self.source {
            DatasetSource::Derivative(d) => d.inputs.deep_view(),
            DatasetSource::Root(_) => Seq::empty(),
        }
    }
}

/// A contiguous portion of one dataset's records.
#[derive(Debug, Clone)]
pub struct DataSlice {
    pub hash: String,
    pub interval: TimeInterval,
    pub num_records: u64,
}

/// An immutable record of a metadata chain.
#[derive(Debug, Clone)]
pub struct MetadataBlock {
    pub block_hash: String,
    pub prev_block_hash: String,
    pub system_time: i64,
    pub source: Option<DatasetSource>,
    pub output_slice: Option<DataSlice>,
    pub output_watermark: Option<i64>,
    pub input_slices: Option<Vec<DataSlice>>,
}

/// The summary kept beside a dataset's chain.
#[derive(Debug, Clone)]
pub struct DatasetSummary {
    pub id: DatasetIDBuf,
    pub kind: DatasetKind,
    pub dependencies: Vec<DatasetIDBuf>,
    pub last_pulled: Option<i64>,
    pub num_records: u64,
    pub data_size: u64,
    pub vocab: DatasetVocabulary,
}

} // verus!

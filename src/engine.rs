//! The request/response contract with execution engines.

use vstd::prelude::*;

use crate::dataset_id::DatasetIDBuf;
use crate::error::EngineError;
use crate::metadata::{DatasetSourceDerivative, DatasetSourceRoot, DatasetVocabulary, MetadataBlock};
use crate::metadata_chain::str_eq;
use crate::time_interval::TimeInterval;

verus! {

/// An engine runs ingest steps and transforms in a process of its own.
pub trait Engine {
    fn ingest(&self, request: IngestRequest) -> Result<IngestResponse, EngineError>;

    fn transform(&self, request: ExecuteQueryRequest) -> Result<ExecuteQueryResponse, EngineError>;
}

/// The container image of the engine with the given name.
pub fn engine_image(name: &str) -> (r: Result<&'static str, EngineError>)
    ensures
        name@ == "sparkSQL"@ ==> (r matches Ok(i) && i@ == "kamudata/engine-spark:0.8.0"@),
        name@ == "flink"@ ==> (r matches Ok(i) && i@ == "kamudata/engine-flink:0.6.0"@),
        name@ != "sparkSQL"@ && name@ != "flink"@ ==> (r matches Err(EngineError::NotFound { id })
            && id@ == name@),
{
    proof {
        reveal_strlit("sparkSQL");
        reveal_strlit("flink");
        assert("sparkSQL"@[0] == 's' && "flink"@[0] == 'f');
        assert("sparkSQL"@ != "flink"@);
    }
    if str_eq(name, "sparkSQL") {
        Ok("kamudata/engine-spark:0.8.0")
    } else if str_eq(name, "flink") {
        Ok("kamudata/engine-flink:0.6.0")
    } else {
        Err(EngineError::not_found(name))
    }
}

/// The container image of the engine that runs ingest pipelines.
pub fn ingest_engine_image() -> (r: &'static str)
    ensures
        r@ == "kamudata/engine-spark:0.8.0"@,
{
    "kamudata/engine-spark:0.8.0"
}

#[derive(Debug, Clone)]
pub struct IngestRequest {
    pub dataset_id: DatasetIDBuf,
    pub ingest_path: String,
    pub event_time: Option<i64>,
    pub source: DatasetSourceRoot,
    pub dataset_vocab: DatasetVocabulary,
    pub checkpoints_dir: String,
    pub data_dir: String,
}

/// The block to append; its previous-block hash is set by the caller.
#[derive(Debug, Clone)]
pub struct IngestResponse {
    pub block: MetadataBlock,
}

/// A transform request. The per-dataset tables list the inputs in the order
/// of the source's inputs; vocabularies and data directories end with the
/// output dataset.
#[derive(Debug, Clone)]
pub struct ExecuteQueryRequest {
    pub dataset_id: DatasetIDBuf,
    pub source: DatasetSourceDerivative,
    pub dataset_vocabs: Vec<(DatasetIDBuf, DatasetVocabulary)>,
    pub input_slices: Vec<(DatasetIDBuf, InputDataSlice)>,
    pub data_dirs: Vec<(DatasetIDBuf, String)>,
    pub checkpoints_dir: String,
}

#[derive(Debug, Clone)]
pub struct ExecuteQueryResponse {
    pub block: MetadataBlock,
    pub data_file_name: Option<String>,
}

/// The part of an input that the next transform run processes.
#[derive(Debug, Clone)]
pub struct InputDataSlice {
    pub interval: TimeInterval,
    pub explicit_watermarks: Vec<Watermark>,
}

/// An event-time watermark observed at a system time.
#[derive(Debug, Clone, Copy, PartialEq, Eq, Structural)]
pub struct Watermark {
    pub system_time: i64,
    pub event_time: i64,
}

} // verus!

//! Where a workspace keeps its datasets.

use vstd::prelude::*;
use vstd::string::*;

use crate::dataset_id::DatasetIDBuf;

verus! {

/// `dir/name`
pub open spec fn joined(dir: Seq<char>, name: Seq<char>) -> Seq<char> {
    dir + seq!['/'] + name
}

pub fn join(dir: &str, name: &str) -> (r: String)
    ensures
        r@ == joined(dir@, name@),
{
    proof {
        reveal_strlit("/");
    }
    let s = dir.to_owned().concat("/");
    s.concat(name)
}

/// The directories of a workspace: chains and summaries under
/// `datasets_dir`, bulk data under `local_volume_dir`.
#[derive(Debug, Clone)]
pub struct WorkspaceLayout {
    pub datasets_dir: String,
    pub local_volume_dir: String,
}

/// The bulk-data directories of a volume.
#[derive(Debug, Clone)]
pub struct VolumeLayout {
    pub data_dir: String,
    pub checkpoints_dir: String,
    pub cache_dir: String,
}

impl VolumeLayout {
    pub fn new(volume_dir: &str) -> (r: VolumeLayout)
        ensures
            r.data_dir@ == joined(volume_dir@, "data"@),
            r.checkpoints_dir@ == joined(volume_dir@, "checkpoints"@),
            r.cache_dir@ == joined(volume_dir@, "cache"@),
    {
        VolumeLayout {
            data_dir: join(volume_dir, "data"),
            checkpoints_dir: join(volume_dir, "checkpoints"),
            cache_dir: join(volume_dir, "cache"),
        }
    }
}

/// The bulk-data directories of one dataset.
#[derive(Debug, Clone)]
pub struct DatasetLayout {
    pub data_dir: String,
    pub checkpoints_dir: String,
    pub cache_dir: String,
}

impl DatasetLayout {
    pub fn new(volume: &VolumeLayout, id: &DatasetIDBuf) -> (r: DatasetLayout)
        ensures
            r.data_dir@ == joined(volume.data_dir@, id@),
            r.checkpoints_dir@ == joined(volume.checkpoints_dir@, id@),
            r.cache_dir@ == joined(volume.cache_dir@, id@),
    {
        DatasetLayout {
            data_dir: join(volume.data_dir.as_str(), id.as_str()),
            checkpoints_dir: join(volume.checkpoints_dir.as_str(), id.as_str()),
            cache_dir: join(volume.cache_dir.as_str(), id.as_str()),
        }
    }
}

} // verus!

use kamu_core::block_hash::compute_block_hash;
use kamu_core::dataset_id::DatasetIDBuf;
use kamu_core::metadata::{
    DataSlice, DatasetSource, DatasetSourceDerivative, MetadataBlock, Transform,
};
use kamu_core::metadata_chain::{BlockRef, MetadataChain};
use kamu_core::time_interval::TimeInterval;

fn genesis() -> MetadataBlock {
    MetadataBlock {
        block_hash: String::new(),
        prev_block_hash: String::new(),
        system_time: 100,
        source: Some(DatasetSource::Derivative(DatasetSourceDerivative {
            inputs: vec![DatasetIDBuf::try_from("input1").unwrap()],
            transform: Transform {
                engine: "sparkSQL".to_owned(),
                additional_properties: vec![("query".to_owned(), "SELECT * FROM input1".to_owned())],
            },
        })),
        output_slice: None,
        output_watermark: None,
        input_slices: None,
    }
}

fn data_block(prev: &str, t: i64, n: u64) -> MetadataBlock {
    MetadataBlock {
        block_hash: String::new(),
        prev_block_hash: prev.to_owned(),
        system_time: t,
        source: None,
        output_slice: Some(DataSlice {
            hash: "ffaabb".to_owned(),
            interval: TimeInterval::singleton(t),
            num_records: n,
        }),
        output_watermark: Some(t),
        input_slices: Some(vec![DataSlice {
            hash: "aa".to_owned(),
            interval: TimeInterval::unbounded_closed_right(t),
            num_records: n,
        }]),
    }
}

#[test]
fn append_moves_head_and_iterates_newest_first() {
    let (mut chain, genesis_hash) = MetadataChain::create(genesis());
    assert_eq!(chain.read_ref(&BlockRef::Head), genesis_hash);
    let b = data_block(&genesis_hash, 200, 10);
    let h = chain.append(b.clone());
    assert_eq!(chain.read_ref(&BlockRef::Head), h);
    let blocks = chain.iter_blocks();
    assert_eq!(blocks.len(), 2);
    assert_eq!(blocks[0].block_hash, h);
    assert_eq!(blocks[0].system_time, 200);
    assert_eq!(blocks[0].prev_block_hash, genesis_hash);
    assert_eq!(blocks[1].block_hash, genesis_hash);
    assert_eq!(chain.get_block(&h).unwrap().system_time, 200);
    assert!(chain.get_block("0000000000000000").is_none());
}

#[test]
fn hash_depends_on_content_only() {
    let a = data_block("abc", 200, 10);
    let mut a2 = data_block("abc", 200, 10);
    a2.block_hash = "something else".to_owned();
    let b = data_block("abc", 200, 11);
    let c = data_block("abd", 200, 10);
    let ha = compute_block_hash(&a);
    assert_eq!(ha.len(), 16);
    assert!(ha.chars().all(|ch| ch.is_ascii_hexdigit() && !ch.is_ascii_uppercase()));
    assert_eq!(ha, compute_block_hash(&a2));
    assert_ne!(ha, compute_block_hash(&b));
    assert_ne!(ha, compute_block_hash(&c));
    assert_ne!(compute_block_hash(&genesis()), ha);
}

#[test]
fn genesis_hash_is_content_hash() {
    let g = genesis();
    let expected = compute_block_hash(&g);
    let (chain, h) = MetadataChain::create(g);
    assert_eq!(h, expected);
    assert_eq!(chain.len(), 1);
    assert_eq!(chain.block_from_head(0).block_hash, expected);
}

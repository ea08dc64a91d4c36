//! The store dictionary: what a store header records about the archive it
//! was cloned from.
use crate::device::{ChunkedStoreDevice, DeviceError};
use crate::store::ChunkDescriptor;
use vstd::prelude::*;

verus! {

/// Chunking algorithm codes of the dictionary.
pub const ALGORITHM_BUZHASH: i32 = 0;

pub const ALGORITHM_ROLLSUM: i32 = 1;

pub const ALGORITHM_FIXED_SIZE: i32 = 2;

/// Settings of a rolling-hash chunker.
#[derive(PartialEq, Eq, Structural, Debug, Clone, Copy)]
pub struct FilterConfig {
    pub filter_bits: u32,
    pub min_chunk_size: usize,
    pub max_chunk_size: usize,
    pub window_size: usize,
}

/// How the archive was cut into chunks.
#[derive(PartialEq, Eq, Structural, Debug, Clone, Copy)]
pub enum ChunkerConfig {
    BuzHash(FilterConfig),
    RollSum(FilterConfig),
    FixedSize(usize),
}

/// The chunker settings as the dictionary records them.
#[derive(PartialEq, Eq, Structural, Debug, Clone, Copy)]
pub struct ChunkerParameters {
    pub chunk_filter_bits: u32,
    pub min_chunk_size: u32,
    /// Also the chunk size of a fixed-size chunker.
    pub max_chunk_size: u32,
    pub rolling_hash_window_size: u32,
    pub chunk_hash_length: u32,
    pub chunking_algorithm: i32,
}

/// The dictionary of a store header.
#[derive(Debug, Clone)]
pub struct StoreDictionary {
    pub application_version: String,
    pub chunker_params: Option<ChunkerParameters>,
    pub source_checksum: Vec<u8>,
    pub source_total_size: u64,
    /// Positions in `chunk_descriptors`, in source order; may repeat.
    pub source_order: Vec<u32>,
    pub chunk_descriptors: Vec<ChunkDescriptor>,
}

/// The parameters that record a rolling-hash chunker's settings.
pub open spec fn filter_params(c: FilterConfig, chunk_hash_length: u32, algorithm: i32) -> ChunkerParameters {
    ChunkerParameters {
        chunk_filter_bits: c.filter_bits,
        min_chunk_size: c.min_chunk_size as u32,
        max_chunk_size: c.max_chunk_size as u32,
        rolling_hash_window_size: c.window_size as u32,
        chunk_hash_length,
        chunking_algorithm: algorithm,
    }
}

/// The parameters that record a chunker configuration.
pub open spec fn params_of(conf: ChunkerConfig, chunk_hash_length: u32) -> ChunkerParameters {
    match conf {
        ChunkerConfig::BuzHash(c) => filter_params(c, chunk_hash_length, ALGORITHM_BUZHASH),
        ChunkerConfig::RollSum(c) => filter_params(c, chunk_hash_length, ALGORITHM_ROLLSUM),
        ChunkerConfig::FixedSize(size) => ChunkerParameters {
            chunk_filter_bits: 0,
            min_chunk_size: 0,
            max_chunk_size: size as u32,
            rolling_hash_window_size: 0,
            chunk_hash_length,
            chunking_algorithm: ALGORITHM_FIXED_SIZE,
        },
    }
}

fn filter_to_params(c: &FilterConfig, chunk_hash_length: u32, algorithm: i32) -> (r: ChunkerParameters)
    ensures
        r == filter_params(*c, chunk_hash_length, algorithm),
{
    ChunkerParameters {
        chunk_filter_bits: c.filter_bits,
        min_chunk_size: c.min_chunk_size as u32,
        max_chunk_size: c.max_chunk_size as u32,
        rolling_hash_window_size: c.window_size as u32,
        chunk_hash_length,
        chunking_algorithm: algorithm,
    }
}

/// Records a chunker configuration; sizes are stored as `u32`.
pub fn chunker_config_to_params(conf: &ChunkerConfig, chunk_hash_length: u32) -> (r: ChunkerParameters)
    ensures
        r == params_of(*conf, chunk_hash_length),
{
    match conf {
        ChunkerConfig::BuzHash(c) => filter_to_params(c, chunk_hash_length, ALGORITHM_BUZHASH),
        ChunkerConfig::RollSum(c) => filter_to_params(c, chunk_hash_length, ALGORITHM_ROLLSUM),
        ChunkerConfig::FixedSize(size) => ChunkerParameters {
            chunk_filter_bits: 0,
            min_chunk_size: 0,
            max_chunk_size: *size as u32,
            rolling_hash_window_size: 0,
            chunk_hash_length,
            chunking_algorithm: ALGORITHM_FIXED_SIZE,
        },
    }
}

/// Builds the chunked device that serves the source a dictionary describes.
pub fn make_device(dictionary: &StoreDictionary, block_size: u32) -> (r: Result<ChunkedStoreDevice, DeviceError>)
    requires
        block_size > 0,
    ensures
        r is Ok <==> crate::device::layout_ok(
            dictionary.source_order@,
            dictionary.chunk_descriptors@,
            dictionary.source_order@.len() as int,
        ),
        r matches Ok(d) ==> {
            &&& d.wf()
            &&& d.map().key_seq() == crate::device::layout_keys(
                dictionary.source_order@,
                dictionary.chunk_descriptors@,
                dictionary.source_order@.len() as int,
            )
            &&& d.map().value_seq().map_values(|s: String| s@) == crate::device::layout_paths(
                dictionary.source_order@,
                dictionary.chunk_descriptors@,
                dictionary.source_order@.len() as int,
            )
            &&& d.spec_block_size() == block_size
            &&& d.spec_block_count() == dictionary.source_total_size / (block_size as u64)
        },
{
    ChunkedStoreDevice::new(
        dictionary.source_order.as_slice(),
        dictionary.chunk_descriptors.as_slice(),
        dictionary.source_total_size,
        block_size,
    )
}

} // verus!

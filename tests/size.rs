use ihop::dict::{chunker_config_to_params, ChunkerConfig, ChunkerParameters, FilterConfig};
use ihop::size::{parse_size, size_str, Int};

#[test]
fn size_str_units() {
    assert_eq!(size_str(512usize), "512 bytes");
    assert_eq!(size_str(1024u32), "1024 bytes");
    assert_eq!(size_str(1025u64), "1 KiB (1025 bytes)");
    assert_eq!(size_str(1048576u64), "1024 KiB (1048576 bytes)");
    assert_eq!(size_str(5u64 * 1048576 + 3), "5 MiB (5242883 bytes)");
    assert_eq!(size_str(0u32), "0 bytes");
    assert_eq!(size_str(u64::MAX), "17592186044415 MiB (18446744073709551615 bytes)");
}

#[test]
fn int_values() {
    assert_eq!(<u32 as Int>::val(7).to_u64(), 7);
    assert_eq!(<usize as Int>::val(1024).to_u64(), 1024);
    assert_eq!(<u64 as Int>::val(0).to_u64(), 0);
}

#[test]
fn parse_size_units() {
    assert_eq!(parse_size("512"), Some(512));
    assert_eq!(parse_size("512B"), Some(512));
    assert_eq!(parse_size("4KiB"), Some(4096));
    assert_eq!(parse_size("2MiB"), Some(2 * 1024 * 1024));
    assert_eq!(parse_size("1GiB"), Some(1024 * 1024 * 1024));
    assert_eq!(parse_size("1TiB"), None);
    assert_eq!(parse_size("KiB"), None);
    assert_eq!(parse_size(""), None);
    assert_eq!(parse_size("99999999999999999999999"), None);
    assert_eq!(parse_size("1K2iB"), Some(12 * 1024));
}

#[test]
fn chunker_params_of_each_algorithm() {
    let f = FilterConfig { filter_bits: 13, min_chunk_size: 1024, max_chunk_size: 65536, window_size: 64 };
    assert_eq!(
        chunker_config_to_params(&ChunkerConfig::BuzHash(f), 32),
        ChunkerParameters {
            chunk_filter_bits: 13,
            min_chunk_size: 1024,
            max_chunk_size: 65536,
            rolling_hash_window_size: 64,
            chunk_hash_length: 32,
            chunking_algorithm: 0,
        }
    );
    assert_eq!(chunker_config_to_params(&ChunkerConfig::RollSum(f), 16).chunking_algorithm, 1);
    assert_eq!(
        chunker_config_to_params(&ChunkerConfig::FixedSize(4096), 64),
        ChunkerParameters {
            chunk_filter_bits: 0,
            min_chunk_size: 0,
            max_chunk_size: 4096,
            rolling_hash_window_size: 0,
            chunk_hash_length: 64,
            chunking_algorithm: 2,
        }
    );
}

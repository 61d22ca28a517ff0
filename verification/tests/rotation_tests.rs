use guardian::config::LoggingConfig;
use guardian::log_rotation::{
    crc32_simple, parse_size, rotated_path, simple_compress, FileCheck, LogRotator,
};

#[test]
fn test_parse_size_mb() {
    assert_eq!(parse_size("50MB"), 50 * 1024 * 1024);
    assert_eq!(parse_size("100MB"), 100 * 1024 * 1024);
}

#[test]
fn test_parse_size_gb() {
    assert_eq!(parse_size("1GB"), 1024 * 1024 * 1024);
}

#[test]
fn test_parse_size_kb() {
    assert_eq!(parse_size("512KB"), 512 * 1024);
}

#[test]
fn test_parse_size_case_insensitive() {
    assert_eq!(parse_size("50mb"), 50 * 1024 * 1024);
    assert_eq!(parse_size("1gb"), 1024 * 1024 * 1024);
}

#[test]
fn test_parse_size_plain_bytes_and_fallback() {
    assert_eq!(parse_size("4096"), 4096);
    assert_eq!(parse_size("not a size"), 50 * 1024 * 1024);
}

#[test]
fn test_rotated_path_compressed() {
    let result = rotated_path("/var/log/guardian.log", 1, true);
    assert_eq!(result.as_str(), "/var/log/guardian.log.1.gz");
}

#[test]
fn test_rotated_path_uncompressed() {
    let result = rotated_path("/var/log/guardian.log", 3, false);
    assert_eq!(result.as_str(), "/var/log/guardian.log.3");
}

#[test]
fn test_log_rotation_basic() {
    let mut config = LoggingConfig::default();
    config.output = String::from("test.log");
    config.max_size = String::from("512KB");
    config.max_files = 3;

    let mut rotator = LogRotator::new(config);
    // One observed file of 1 MiB, over the 512 KiB limit.
    let checks = vec![FileCheck { exists: true, size: 1024 * 1024, read_failed: false }];
    let (stats, flags) = rotator.rotate_if_needed(&checks, 0);
    assert_eq!(stats.files_rotated, 1);
    assert_eq!(stats.files_checked, 1);
    assert!(flags[0]);
}

#[test]
fn test_no_rotation_needed() {
    let mut config = LoggingConfig::default();
    config.output = String::from("small.log");
    config.max_size = String::from("50MB");
    config.max_files = 3;

    let mut rotator = LogRotator::new(config);
    let checks = vec![FileCheck { exists: true, size: 13, read_failed: false }];
    let (stats, flags) = rotator.rotate_if_needed(&checks, 0);
    assert_eq!(stats.files_rotated, 0);
    assert!(!flags[0]);
}

#[test]
fn test_should_check_interval() {
    let config = LoggingConfig::default();
    let rotator = LogRotator::new(config);
    // The first check always runs.
    assert!(rotator.should_check(0, 3600));
}

#[test]
fn test_should_check_after_rotation() {
    let config = LoggingConfig::default();
    let mut rotator = LogRotator::new(config);
    let checks = vec![FileCheck { exists: false, size: 0, read_failed: false }];
    let _ = rotator.rotate_if_needed(&checks, 100);
    assert!(!rotator.should_check(200, 3600));
    assert!(rotator.should_check(3700, 3600));
}

#[test]
fn test_crc32_check_value() {
    // The standard CRC-32 (IEEE) check value for "123456789".
    let data: Vec<u8> = b"123456789".to_vec();
    assert_eq!(crc32_simple(&data), 0xCBF43926);
}

#[test]
fn test_simple_compress_is_gzip_shaped() {
    let data: Vec<u8> = b"hello hello hello hello".to_vec();
    let gz = simple_compress(&data);
    // Magic bytes and the deflate method marker.
    assert_eq!(gz[0], 0x1f);
    assert_eq!(gz[1], 0x8b);
    assert_eq!(gz[2], 0x08);
    // Trailer: CRC-32 of the input, then its length.
    let n = gz.len();
    let crc = crc32_simple(&data);
    assert_eq!(gz[n - 8], (crc & 0xff) as u8);
    assert_eq!(gz[n - 4], (data.len() as u32 & 0xff) as u8);
}

use sentinel::corpus::{i128_le_bytes, CorpusManager};
use std::collections::HashSet;

#[test]
fn default_seeds_are_boundary_values() {
    let seeds = CorpusManager::default_seeds();
    assert_eq!(
        seeds,
        vec![
            0i128.to_le_bytes().to_vec(),
            i128::MAX.to_le_bytes().to_vec(),
            1_000_000i128.to_le_bytes().to_vec(),
            (i128::MAX - 1).to_le_bytes().to_vec(),
        ]
    );
    assert_eq!(i128::from_le_bytes(seeds[2].clone().try_into().unwrap()), 1_000_000);
}

#[test]
fn le_bytes_match_std() {
    for v in [0i128, 1, -1, 255, 256, -256, i128::MIN, i128::MAX, 0x0102_0304_0506_0708_090a_0b0c_0d0e_0f10] {
        assert_eq!(i128_le_bytes(v), v.to_le_bytes().to_vec(), "value {}", v);
    }
}

#[test]
fn seed_file_names_are_zero_padded() {
    assert_eq!(CorpusManager::seed_file_name(0), "seed_0000");
    assert_eq!(CorpusManager::seed_file_name(7), "seed_0007");
    assert_eq!(CorpusManager::seed_file_name(1234), "seed_1234");
    assert_eq!(CorpusManager::seed_file_name(12345), "seed_12345");
    for i in [0usize, 9, 10, 999, 1000, 9999, 10000, 123456789] {
        assert_eq!(CorpusManager::seed_file_name(i), format!("seed_{:04}", i));
    }
}

#[test]
fn seed_file_names_are_distinct() {
    let names: HashSet<String> = (0..3000).map(CorpusManager::seed_file_name).collect();
    assert_eq!(names.len(), 3000);
}

#[test]
fn corpus_manager_keeps_its_base_dir() {
    let m = CorpusManager::new("/tmp/corpus".to_string());
    assert_eq!(m.base_dir(), "/tmp/corpus");
}

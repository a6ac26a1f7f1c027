use mmap_file::{
    deserialize, serialize, ConfigError, DeserializeError, LocationInFile, MmapFile,
    MmapFileConfig, MmapFileError,
};

fn small_config() -> MmapFileConfig {
    MmapFileConfig { max_size: 16, growth_step: 4, max_object_size: 3 }
}

#[test]
fn config_boundaries() {
    let base = MmapFileConfig { max_size: 100, growth_step: 10, max_object_size: 5 };
    let step_equal = MmapFileConfig { growth_step: 5, ..base };
    assert_eq!(step_equal.validate(), Err(ConfigError::GrowthStepTooSmall));
    let step_above = MmapFileConfig { growth_step: 6, ..base };
    assert_eq!(step_above.validate(), Ok(()));
    let max_equal = MmapFileConfig { max_size: 10, ..base };
    assert_eq!(max_equal.validate(), Err(ConfigError::MaxSizeTooSmall));
    let max_above = MmapFileConfig { max_size: 11, ..base };
    assert_eq!(max_above.validate(), Ok(()));
}

#[test]
fn open_rejects_invalid_config() {
    let config = MmapFileConfig { max_size: 4, growth_step: 4, max_object_size: 3 };
    let r = MmapFile::open(config, Vec::new());
    assert!(matches!(r, Err(MmapFileError::Config(ConfigError::MaxSizeTooSmall))));
}

#[test]
fn serialize_exact_bytes() {
    assert_eq!(serialize(&vec![1, 2]), vec![2, 1, 2]);
    assert_eq!(serialize(&Vec::new()), vec![0]);
    let long: Vec<u8> = vec![7; 200];
    let enc = serialize(&long);
    assert_eq!(enc.len(), 202);
    assert_eq!(enc[0], 0xC8);
    assert_eq!(enc[1], 0x01);
    assert_eq!(deserialize(&enc), Ok(long));
}

#[test]
fn deserialize_errors() {
    assert_eq!(deserialize(&[]), Err(DeserializeError::TruncatedLength));
    assert_eq!(deserialize(&[0x80, 0x80]), Err(DeserializeError::TruncatedLength));
    assert_eq!(deserialize(&[3, 1, 2]), Err(DeserializeError::LengthMismatch));
    assert_eq!(deserialize(&[1, 1, 2]), Err(DeserializeError::LengthMismatch));
    assert_eq!(deserialize(&[0xFF, 0xFF, 0xFF, 0xFF, 0x7F]), Err(DeserializeError::LengthMismatch));
    assert_eq!(deserialize(&[2, 9, 8]), Ok(vec![9, 8]));
}

#[test]
fn growth_sequence() {
    let mut file = MmapFile::open(small_config(), Vec::new()).unwrap();
    assert_eq!(file.capacity(), 4);
    let data: Vec<u8> = vec![5, 6];
    let mut offset = 0;
    let mut seen = Vec::new();
    for _ in 0..4 {
        let len = file.insert(offset, &data).unwrap();
        assert_eq!(len, 3);
        offset += len;
        seen.push(file.capacity());
    }
    assert_eq!(seen, vec![8, 12, 12, 16]);
}

#[test]
fn reopen_never_shrinks() {
    let existing: Vec<u8> = vec![9; 13];
    let file = MmapFile::open(small_config(), existing).unwrap();
    assert_eq!(file.store_len(), 13);
    assert_eq!(file.capacity(), 4);
    let short: Vec<u8> = vec![9; 2];
    let file = MmapFile::open(small_config(), short).unwrap();
    assert_eq!(file.store_len(), 4);
    assert_eq!(file.read_bytes(LocationInFile { offset: 0, len: 4 }), Ok(vec![9, 9, 0, 0]));
}

#[test]
fn round_trip_after_reopen() {
    let mut file = MmapFile::open(small_config(), Vec::new()).unwrap();
    let len = file.insert(0, &vec![4]).unwrap();
    assert_eq!(len, 2);
    file.flush();
    let stored = file.read_bytes(LocationInFile { offset: 0, len: file.store_len() }).unwrap();
    let reopened = MmapFile::open(small_config(), stored).unwrap();
    assert_eq!(reopened.get(LocationInFile { offset: 0, len }), Ok(vec![4]));
}

#[test]
fn capacity_ceiling_keeps_data() {
    let mut file = MmapFile::open(small_config(), Vec::new()).unwrap();
    let data: Vec<u8> = vec![1, 2];
    let mut offset = 0;
    for _ in 0..4 {
        offset += file.insert(offset, &data).unwrap();
    }
    file.flush();
    assert_eq!(file.capacity(), 16);
    // 12 + 3 + 3 = 18 needs 20 bytes, past the ceiling of 16.
    assert_eq!(file.insert(offset, &data), Err(MmapFileError::CapacityExceeded));
    assert_eq!(file.capacity(), 16);
    for i in 0..4 {
        assert_eq!(file.get(LocationInFile { offset: 3 * i, len: 3 }), Ok(vec![1, 2]));
    }
    assert!(file.flush().is_empty());
}

#[test]
fn insert_offset_overflow_is_refused() {
    let mut file = MmapFile::open(small_config(), Vec::new()).unwrap();
    assert_eq!(file.insert(usize::MAX - 1, &vec![1]), Err(MmapFileError::CapacityExceeded));
    assert_eq!(file.capacity(), 4);
}

#[test]
fn get_out_of_bounds() {
    let file = MmapFile::open(small_config(), Vec::new()).unwrap();
    assert_eq!(file.get(LocationInFile { offset: 2, len: 3 }), Err(MmapFileError::OutOfBounds));
    assert_eq!(
        file.get(LocationInFile { offset: usize::MAX, len: 2 }),
        Err(MmapFileError::OutOfBounds)
    );
}

#[test]
fn get_wrong_location_fails_to_decode() {
    let mut file = MmapFile::open(small_config(), Vec::new()).unwrap();
    let len = file.insert(0, &vec![1, 2]).unwrap();
    assert_eq!(
        file.get(LocationInFile { offset: 0, len: len - 1 }),
        Err(MmapFileError::Deserialize(DeserializeError::LengthMismatch))
    );
}

#[test]
fn flush_hands_over_pending_locations() {
    let mut file = MmapFile::open(small_config(), Vec::new()).unwrap();
    let a = file.insert(0, &vec![1, 2]).unwrap();
    let b = file.insert(a, &vec![3]).unwrap();
    let pending = file.flush();
    assert_eq!(
        pending,
        vec![LocationInFile { offset: 0, len: 3 }, LocationInFile { offset: 3, len: b }]
    );
    assert!(file.flush().is_empty());
}

#[test]
fn later_insert_leaves_earlier_record() {
    let mut file = MmapFile::open(small_config(), Vec::new()).unwrap();
    let first: Vec<u8> = vec![1, 2];
    let second: Vec<u8> = vec![3, 2];
    let len = file.insert(0, &first).unwrap();
    file.flush();
    assert_eq!(file.get(LocationInFile { offset: 0, len }), Ok(first.clone()));
    let len2 = file.insert(len, &second).unwrap();
    file.flush();
    assert_eq!(file.get(LocationInFile { offset: 0, len }), Ok(first));
    assert_eq!(file.get(LocationInFile { offset: len, len: len2 }), Ok(second));
}

#[test]
fn write_read_rounds() {
    let config = mmap_file::get_test_config();
    let mut file = MmapFile::open(config, Vec::new()).unwrap();
    let mut data: Vec<u8> = vec![0, 1];
    let mut offset = 0;
    for round in 0..10usize {
        let len = file.insert(offset, &data).unwrap();
        assert_eq!(len, 3);
        offset += len;
        file.flush();
        for earlier in 0..round + 1 {
            let first = (earlier * 2) as u8;
            let got = file.get(LocationInFile { offset: 3 * earlier, len: 3 }).unwrap();
            assert_eq!(got, vec![first, first + 1]);
        }
        data = data.into_iter().map(|x| x + 2).collect();
    }
}

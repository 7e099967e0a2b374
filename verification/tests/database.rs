use cdb_rs::cdb::format::{Bucket, IndexEntry, IndexEntryPos};
use cdb_rs::cdb::hash::CDBHash;
use cdb_rs::cdb::reader::{copy_slice, same_bytes};
use cdb_rs::cdb::writer::{encode_table, lay_out};
use cdb_rs::{CDBData, CDBError, Reader, Writer};
use std::collections::HashSet;

fn build(kvs: &[(Vec<u8>, Vec<u8>)]) -> Vec<u8> {
    let mut w = Writer::new();
    let mut file = Writer::placeholder();
    for (k, v) in kvs {
        let record = w.put(k, v);
        file.extend_from_slice(&record);
    }
    let tables = w.finalize();
    file.extend_from_slice(&tables.secondary);
    file[..2048].copy_from_slice(&tables.primary);
    file
}

fn pairs(kvs: &[(&str, &str)]) -> Vec<(Vec<u8>, Vec<u8>)> {
    kvs.iter().map(|(k, v)| (k.as_bytes().to_vec(), v.as_bytes().to_vec())).collect()
}

fn u32_at(data: &[u8], off: usize) -> u32 {
    u32::from_le_bytes([data[off], data[off + 1], data[off + 2], data[off + 3]])
}

fn fetch(data: &[u8], key: &[u8], room: usize) -> Result<Option<Vec<u8>>, CDBError> {
    let mut buf = vec![0xaau8; room];
    let n = Reader::new(data).get(key, &mut buf[..])?;
    Ok(n.map(|n| buf[..n].to_vec()))
}

struct Rng(u64);

impl Rng {
    fn next(&mut self) -> u64 {
        self.0 ^= self.0 << 13;
        self.0 ^= self.0 >> 7;
        self.0 ^= self.0 << 17;
        self.0
    }

    fn bytes(&mut self, min: usize, max: usize) -> Vec<u8> {
        let len = min + (self.next() as usize) % (max - min + 1);
        (0..len).map(|_| (self.next() >> 24) as u8).collect()
    }
}

#[test]
fn round_trip_test() {
    let kvs: Vec<(String, String)> =
        vec![("abc", "def"), ("pink", "red"), ("apple", "grape"), ("q", "burp")]
            .iter()
            .map(|(k, v)| (k.to_string(), v.to_string()))
            .collect();

    let bytes: Vec<(Vec<u8>, Vec<u8>)> =
        kvs.iter().map(|(k, v)| (k.clone().into_bytes(), v.clone().into_bytes())).collect();
    let data = build(&bytes).into_boxed_slice();

    let cdb = Reader::new(&data);

    for (k, v) in kvs {
        let mut buf = Vec::new();
        buf.resize(10, 0u8);

        let n = cdb.get(k.as_bytes(), &mut buf[..]).unwrap().unwrap();
        assert_eq!(n, v.len());
        assert_eq!(&buf[0..n], v.as_bytes())
    }

    let mut buf = Vec::new();
    buf.resize(10, 0u8);

    let r = cdb.get("1233".as_bytes(), &mut buf[..]).unwrap();
    assert!(r.is_none());
}

#[test]
fn hash_of_empty_key_is_the_starting_value() {
    assert_eq!(CDBHash::new(b"").inner(), 5381);
    assert_eq!(cdb_rs::cdb::STARTING_HASH, 5381);
}

#[test]
fn hash_of_one_byte() {
    assert_eq!(CDBHash::new(b"a").inner(), (5381u32 * 33) ^ 97);
    assert_eq!(CDBHash::new(b"a").inner(), 177604);
    assert_eq!(CDBHash::new(b"\x00").inner(), 5381 * 33);
}

#[test]
fn hash_reference_table() {
    let table: [(&[u8], u32); 16] = [
        (b"", 5381),
        (b"a", 177604),
        (b"abc", 193409669),
        (b"pink", 2088104537),
        (b"apple", 170357325),
        (b"q", 177620),
        (b"1233", 2085881670),
        (b"hello", 178056679),
        (b"world", 191451879),
        (b"key", 193424690),
        (b"value", 189936718),
        (b"The quick brown fox", 358000238),
        (b"\x00", 177573),
        (b"\xff\xff\xff\xff", 2083728837),
        (b"constant database", 926889310),
        (b"0123456789abcdef0123456789abcdef", 4270688709),
    ];
    for (key, expected) in table.iter() {
        assert_eq!(CDBHash::new(key).inner(), *expected);
    }
}

#[test]
fn hash_wraps_around() {
    // 33 * 2083728837 is far above 2^32: the product is cut to its low 32 bits.
    let h = CDBHash::new(b"\xff\xff\xff\xff").inner();
    let next = CDBHash::new(b"\xff\xff\xff\xff\x01").inner();
    assert_eq!(next, ((h as u64 * 33) % (1u64 << 32)) as u32 ^ 1);
}

#[test]
fn hash_projections() {
    let h = CDBHash::new(b"abc");
    assert_eq!(h.table(), 133);
    assert_eq!(h.slot(2), 755506 % 2);
    assert_eq!(h.slot(1000), 755506 % 1000);
    assert_eq!(CDBHash(0xffff_ffff).table(), 255);
    assert_eq!(CDBHash(0xffff_ffff).slot(0x1_0000), 0xffff);
    assert_eq!(CDBHash(0x1234_5678).slot(7), 0x12_3456 % 7);
}

#[test]
fn record_bytes_are_lengths_key_value() {
    let mut w = Writer::new();
    assert_eq!(w.put(b"abc", b"def"), vec![3, 0, 0, 0, 3, 0, 0, 0, 97, 98, 99, 100, 101, 102]);
    assert_eq!(w.put(b"", b""), vec![0, 0, 0, 0, 0, 0, 0, 0]);
    let key = vec![7u8; 0x1_02];
    let value = vec![9u8; 0x3_04_05];
    let record = w.put(&key, &value);
    assert_eq!(&record[..8], &[0x02, 0x01, 0, 0, 0x05, 0x04, 0x03, 0]);
    assert_eq!(&record[8..8 + key.len()], &key[..]);
    assert_eq!(&record[8 + key.len()..], &value[..]);
}

#[test]
fn placeholder_is_2048_zero_bytes() {
    assert_eq!(Writer::placeholder(), vec![0u8; 2048]);
}

#[test]
fn file_bytes_of_four_records() {
    let data = build(&pairs(&[("abc", "def"), ("pink", "red"), ("apple", "grape"), ("q", "burp")]));
    assert_eq!(data.len(), 2172);
    let expected_tail: Vec<u8> = vec![
        3, 0, 0, 0, 3, 0, 0, 0, 97, 98, 99, 100, 101, 102, 4, 0, 0, 0, 3, 0, 0, 0, 112, 105,
        110, 107, 114, 101, 100, 5, 0, 0, 0, 5, 0, 0, 0, 97, 112, 112, 108, 101, 103, 114, 97,
        112, 101, 1, 0, 0, 0, 4, 0, 0, 0, 113, 98, 117, 114, 112, 77, 114, 39, 10, 29, 8, 0, 0,
        0, 0, 0, 0, 0, 0, 0, 0, 89, 242, 117, 124, 14, 8, 0, 0, 0, 0, 0, 0, 0, 0, 0, 0, 133, 50,
        135, 11, 0, 8, 0, 0, 0, 0, 0, 0, 0, 0, 0, 0, 0, 0, 0, 0, 0, 0, 0, 0, 212, 181, 2, 0, 47,
        8, 0, 0,
    ];
    assert_eq!(&data[2048..], &expected_tail[..]);
    for b in 0..256usize {
        let expected = match b {
            77 => (2108, 2),
            89 => (2124, 2),
            133 => (2140, 2),
            212 => (2156, 2),
            _ => (0, 0),
        };
        assert_eq!((u32_at(&data, 8 * b), u32_at(&data, 8 * b + 4)), expected);
    }
}

#[test]
fn file_of_no_records_is_an_empty_primary_table() {
    let data = build(&[]);
    assert_eq!(data, vec![0u8; 2048]);
    assert_eq!(fetch(&data, b"abc", 10).unwrap(), None);
    assert_eq!(fetch(&data, b"", 10).unwrap(), None);
}

#[test]
fn absent_keys_are_not_found() {
    let data = build(&pairs(&[("abc", "def"), ("hello", "1"), ("world", "2")]));
    // "1233" selects an unused primary entry.
    assert_eq!(fetch(&data, b"1233", 10).unwrap(), None);
    // "ab" and "abcd" are neighbours of a key that is there.
    assert_eq!(fetch(&data, b"ab", 10).unwrap(), None);
    assert_eq!(fetch(&data, b"abcd", 10).unwrap(), None);
    assert_eq!(fetch(&data, b"", 10).unwrap(), None);
    // A key that selects the primary entry of "hello" and "world" without being either.
    let mut n = 0u32;
    let other = loop {
        let k = format!("x{}", n).into_bytes();
        if CDBHash::new(&k).table() == 231 {
            break k;
        }
        n += 1;
    };
    assert_eq!(fetch(&data, &other, 10).unwrap(), None);
}

#[test]
fn absent_key_leaves_the_buffer_alone() {
    let data = build(&pairs(&[("abc", "def")]));
    let mut buf = vec![7u8; 5];
    assert_eq!(Reader::new(&data).get(b"nope", &mut buf[..]).unwrap(), None);
    assert_eq!(buf, vec![7u8; 5]);
}

#[test]
fn short_buffer_truncates_the_value() {
    let data = build(&pairs(&[("apple", "grape")]));
    let mut buf = vec![0u8; 3];
    let n = Reader::new(&data).get(b"apple", &mut buf[..]).unwrap();
    assert_eq!(n, Some(3));
    assert_eq!(&buf[..], b"gra");

    let mut none = vec![0u8; 0];
    assert_eq!(Reader::new(&data).get(b"apple", &mut none[..]).unwrap(), Some(0));
}

#[test]
fn long_buffer_keeps_its_tail() {
    let data = build(&pairs(&[("apple", "grape")]));
    let mut buf = vec![b'.'; 8];
    let n = Reader::new(&data).get(b"apple", &mut buf[..]).unwrap();
    assert_eq!(n, Some(5));
    assert_eq!(&buf[..], b"grape...");

    let mut exact = vec![0u8; 5];
    assert_eq!(Reader::new(&data).get(b"apple", &mut exact[..]).unwrap(), Some(5));
    assert_eq!(&exact[..], b"grape");
}

#[test]
fn empty_value_round_trips() {
    let data = build(&pairs(&[("k", ""), ("other", "x")]));
    assert_eq!(fetch(&data, b"k", 4).unwrap(), Some(vec![]));
    assert_eq!(fetch(&data, b"other", 4).unwrap(), Some(b"x".to_vec()));
}

#[test]
fn empty_key_round_trips() {
    let data = build(&pairs(&[("", "v"), ("other", "x")]));
    assert_eq!(fetch(&data, b"", 4).unwrap(), Some(b"v".to_vec()));
    assert_eq!(fetch(&data, b"other", 4).unwrap(), Some(b"x".to_vec()));
    let both = build(&pairs(&[("", "")]));
    assert_eq!(fetch(&both, b"", 4).unwrap(), Some(vec![]));
}

#[test]
fn keys_that_share_a_primary_entry_are_both_found() {
    assert_eq!(CDBHash::new(b"hello").table(), 231);
    assert_eq!(CDBHash::new(b"world").table(), 231);
    let data = build(&pairs(&[("hello", "one"), ("world", "two")]));
    assert_eq!((u32_at(&data, 8 * 231), u32_at(&data, 8 * 231 + 4)), (2048 + 16 + 16, 4));
    assert_eq!(fetch(&data, b"hello", 10).unwrap(), Some(b"one".to_vec()));
    assert_eq!(fetch(&data, b"world", 10).unwrap(), Some(b"two".to_vec()));
}

#[test]
fn keys_that_prefer_the_same_slot_are_both_found() {
    // "c1" and "c100" select primary entry 183 and prefer slot 2 of its four slots.
    for k in [&b"c1"[..], &b"c100"[..]] {
        assert_eq!(CDBHash::new(k).table(), 183);
        assert_eq!(CDBHash::new(k).slot(4), 2);
    }
    let data = build(&pairs(&[("c1", "first"), ("c100", "second")]));
    let start = u32_at(&data, 8 * 183) as usize;
    assert_eq!(u32_at(&data, 8 * 183 + 4), 4);
    // The first key sits in the slot both prefer, the second in the next one.
    assert_eq!(u32_at(&data, start + 4), 0);
    assert_eq!(u32_at(&data, start + 12), 0);
    assert_eq!(u32_at(&data, start + 16), CDBHash::new(b"c1").inner());
    assert_eq!(u32_at(&data, start + 20), 2048);
    assert_eq!(u32_at(&data, start + 24), CDBHash::new(b"c100").inner());
    assert_eq!(u32_at(&data, start + 28), 2048 + 8 + 2 + 5);
    assert_eq!(fetch(&data, b"c1", 10).unwrap(), Some(b"first".to_vec()));
    assert_eq!(fetch(&data, b"c100", 10).unwrap(), Some(b"second".to_vec()));
}

#[test]
fn probing_wraps_round_the_end_of_a_table() {
    // Three keys of one primary entry that all prefer the last of its six slots.
    let mut found: Vec<Vec<u8>> = Vec::new();
    let mut n = 0u32;
    while found.len() < 3 {
        let k = format!("w{}", n).into_bytes();
        let h = CDBHash::new(&k);
        if h.table() == 9 && h.slot(6) == 5 {
            found.push(k);
        }
        n += 1;
    }
    let kvs: Vec<(Vec<u8>, Vec<u8>)> =
        found.iter().enumerate().map(|(i, k)| (k.clone(), vec![i as u8; i + 1])).collect();
    let data = build(&kvs);
    let start = u32_at(&data, 8 * 9) as usize;
    assert_eq!(u32_at(&data, 8 * 9 + 4), 6);
    assert_eq!(u32_at(&data, start + 8 * 5), CDBHash::new(&found[0]).inner());
    assert_eq!(u32_at(&data, start), CDBHash::new(&found[1]).inner());
    assert_eq!(u32_at(&data, start + 8), CDBHash::new(&found[2]).inner());
    for (k, v) in kvs.iter() {
        assert_eq!(fetch(&data, k, 10).unwrap(), Some(v.clone()));
    }
}

#[test]
fn of_two_records_with_one_key_the_first_is_found() {
    let data = build(&pairs(&[("k", "v1"), ("k", "v2")]));
    assert_eq!(fetch(&data, b"k", 10).unwrap(), Some(b"v1".to_vec()));
}

#[test]
fn ten_thousand_random_records_round_trip() {
    let mut rng = Rng(0x2545_f491_4f6c_dd1d);
    let mut seen: HashSet<Vec<u8>> = HashSet::new();
    let mut kvs: Vec<(Vec<u8>, Vec<u8>)> = Vec::new();
    while kvs.len() < 10_000 {
        let k = rng.bytes(1, 32);
        if seen.insert(k.clone()) {
            kvs.push((k, rng.bytes(0, 128)));
        }
    }
    let data = build(&kvs);
    let reader = Reader::new(&data);
    let mut buf = vec![0u8; 128];
    for (k, v) in kvs.iter() {
        let n = reader.get(k, &mut buf[..]).unwrap().unwrap();
        assert_eq!(n, v.len());
        assert_eq!(&buf[..n], &v[..]);
    }
    let mut missing = 0;
    while missing < 1000 {
        let k = rng.bytes(1, 32);
        if !seen.contains(&k) {
            assert_eq!(reader.get(&k, &mut buf[..]).unwrap(), None);
            missing += 1;
        }
    }
}

#[test]
fn primary_table_has_256_entries_that_point_behind_it() {
    let mut rng = Rng(99);
    let kvs: Vec<(Vec<u8>, Vec<u8>)> =
        (0..300u32).map(|i| (format!("key{}", i).into_bytes(), rng.bytes(0, 20))).collect();
    let records: usize = kvs.iter().map(|(k, v)| 8 + k.len() + v.len()).sum();
    let data = build(&kvs);
    let mut next = 2048 + records;
    for b in 0..256usize {
        let ptr = u32_at(&data, 8 * b) as usize;
        let num_ents = u32_at(&data, 8 * b + 4) as usize;
        let count = kvs.iter().filter(|(k, _)| CDBHash::new(k).table() == b).count();
        assert_eq!(num_ents, 2 * count);
        if count == 0 {
            assert_eq!(ptr, 0);
        } else {
            assert!(ptr >= 2048);
            assert_eq!(ptr, next);
            next += 8 * num_ents;
        }
    }
    assert_eq!(next, data.len());
}

#[test]
fn tables_are_half_full() {
    let kvs: Vec<(Vec<u8>, Vec<u8>)> =
        (0..2000u32).map(|i| (format!("{}", i).into_bytes(), vec![1u8; 3])).collect();
    let data = build(&kvs);
    for b in 0..256usize {
        let ptr = u32_at(&data, 8 * b) as usize;
        let num_ents = u32_at(&data, 8 * b + 4) as usize;
        assert_eq!(num_ents % 2, 0);
        let mut in_use = 0;
        for j in 0..num_ents {
            let hash = u32_at(&data, ptr + 8 * j);
            let rec = u32_at(&data, ptr + 8 * j + 4);
            if rec != 0 {
                in_use += 1;
                assert!(rec >= 2048);
                assert_eq!(hash as usize % 256, b);
            }
        }
        assert_eq!(num_ents, 2 * in_use);
    }
}

#[test]
fn file_cut_by_one_byte_is_corrupt_or_answers() {
    let kvs: Vec<(Vec<u8>, Vec<u8>)> =
        (0..500u32).map(|i| (format!("key{}", i).into_bytes(), vec![i as u8; 5])).collect();
    let mut data = build(&kvs);
    data.pop();
    let mut corrupt = 0;
    for (k, v) in kvs.iter() {
        match fetch(&data, k, 5) {
            Ok(Some(got)) => assert_eq!(&got, v),
            Ok(None) => {}
            Err(CDBError::Corrupt) => corrupt += 1,
            Err(e) => panic!("{:?}", e),
        }
    }
    assert!(corrupt <= 500);
}

#[test]
fn cut_slot_is_corrupt() {
    // "t0" prefers slot 1 of the two slots of its table, the last slot of the file.
    assert_eq!(CDBHash::new(b"t0").slot(2), 1);
    let mut data = build(&pairs(&[("t0", "value")]));
    assert_eq!(fetch(&data, b"t0", 10).unwrap(), Some(b"value".to_vec()));
    data.pop();
    assert_eq!(fetch(&data, b"t0", 10), Err(CDBError::Corrupt));
    // Another primary entry is not touched by the cut.
    assert_eq!(fetch(&data, b"1233", 10).unwrap(), None);
}

#[test]
fn cut_record_is_corrupt() {
    let data = build(&pairs(&[("abc", "def")]));
    let start = u32_at(&data, 8 * 133) as usize;
    // Let the slot of "abc" point at a record whose value runs past the end.
    for vlen in [200u32, u32::MAX] {
        let mut bad = data.clone();
        bad[2052..2056].copy_from_slice(&vlen.to_le_bytes());
        assert!(matches!(fetch(&bad, b"abc", 10), Err(CDBError::Corrupt)));
    }
    // Let it point at a header that runs past the end.
    let slot = if u32_at(&data, start + 4) != 0 { start } else { start + 8 };
    let mut bad = data.clone();
    let len = bad.len() as u32;
    bad[slot + 4..slot + 8].copy_from_slice(&(len - 4).to_le_bytes());
    assert!(matches!(fetch(&bad, b"abc", 10), Err(CDBError::Corrupt)));
    // Let the primary entry point at slots inside the primary table.
    let mut bad = data.clone();
    bad[8 * 133..8 * 133 + 4].copy_from_slice(&16u32.to_le_bytes());
    assert!(matches!(fetch(&bad, b"abc", 10), Err(CDBError::Corrupt)));
    // Let it point past the end of the file.
    let mut bad = data.clone();
    bad[8 * 133..8 * 133 + 4].copy_from_slice(&u32::MAX.to_le_bytes());
    assert!(matches!(fetch(&bad, b"abc", 10), Err(CDBError::Corrupt)));
}

#[test]
fn cut_primary_table_is_corrupt() {
    let data = vec![0u8; 8 * 133 + 7];
    assert!(matches!(fetch(&data, b"abc", 10), Err(CDBError::Corrupt)));
    // Entry 5, which the empty key selects, is still whole.
    assert_eq!(fetch(&data, b"", 10).unwrap(), None);
    assert!(matches!(fetch(&[], b"", 10), Err(CDBError::Corrupt)));
}

#[test]
fn corrupt_lookup_leaves_the_buffer_alone() {
    let mut data = build(&pairs(&[("t0", "value")]));
    data.pop();
    let mut buf = vec![3u8; 4];
    assert!(Reader::new(&data).get(b"t0", &mut buf[..]).is_err());
    assert_eq!(buf, vec![3u8; 4]);
}

#[test]
fn value_too_large_carries_both_sizes() {
    match CDBError::value_too_large(10, 11) {
        CDBError::ValueTooLarge { max_size, val_size } => {
            assert_eq!(max_size, 10);
            assert_eq!(val_size, 11);
        }
        e => panic!("{:?}", e),
    }
    assert_eq!(CDBError::value_too_large(1, 2), CDBError::ValueTooLarge { max_size: 1, val_size: 2 });
    assert_ne!(CDBError::value_too_large(1, 2), CDBError::value_too_large(2, 1));
    assert_ne!(CDBError::Io, CDBError::Corrupt);
}

#[test]
fn three_records_without_more_make_a_database() {
    let data = build(&pairs(&[("one", "1"), ("two", "22"), ("three", "333")]));
    assert_eq!(fetch(&data, b"one", 10).unwrap(), Some(b"1".to_vec()));
    assert_eq!(fetch(&data, b"two", 10).unwrap(), Some(b"22".to_vec()));
    assert_eq!(fetch(&data, b"three", 10).unwrap(), Some(b"333".to_vec()));
    assert_eq!(fetch(&data, b"four", 10).unwrap(), None);
}

#[test]
fn finishing_twice_gives_the_same_tables() {
    let mut w = Writer::new();
    w.put(b"a", b"1");
    let first = w.finalize();
    let second = w.finalize();
    assert_eq!(first.primary, second.primary);
    assert_eq!(first.secondary, second.secondary);
    assert_eq!(first.primary.len(), 2048);
    assert_eq!(first.secondary.len(), 16);
}

#[test]
fn heap_data_reads_like_the_bytes_it_was_made_from() {
    let bytes = build(&pairs(&[("abc", "def"), ("pink", "red")]));
    let from_vec = CDBData::from(bytes.clone());
    let from_box = CDBData::from(bytes.clone().into_boxed_slice());
    assert_eq!(from_vec.as_bytes(), &bytes[..]);
    assert_eq!(from_box.as_bytes(), &bytes[..]);
    for key in [&b"abc"[..], &b"pink"[..], &b"1233"[..]] {
        let direct = fetch(&bytes, key, 10).unwrap();
        assert_eq!(fetch(from_vec.as_bytes(), key, 10).unwrap(), direct);
        assert_eq!(fetch(from_box.as_bytes(), key, 10).unwrap(), direct);
    }
}

#[test]
fn reader_parts_read_what_the_writer_wrote() {
    let data = build(&pairs(&[("abc", "def")]));
    let reader = Reader::new(&data);
    let bucket: Bucket = reader.bucket_at(133).unwrap();
    assert_eq!((bucket.ptr, bucket.num_ents), (2062, 2));
    let unused = reader.bucket_at(0).unwrap();
    assert_eq!((unused.ptr, unused.num_ents), (0, 0));
    let preferred = CDBHash::new(b"abc").slot(2);
    let pos: IndexEntryPos = bucket.entry_n_pos(preferred);
    assert_eq!(pos.0, 2062 + 8 * preferred as u64);
    let entry: IndexEntry = reader.index_entry_at(pos).unwrap();
    assert_eq!((entry.hash.inner(), entry.ptr), (193409669, 2048));
    let other = reader.index_entry_at(bucket.entry_n_pos(1 - preferred)).unwrap();
    assert_eq!((other.hash.inner(), other.ptr), (0, 0));
    let kv = reader.get_kv_ref(entry).unwrap();
    assert_eq!((kv.k, kv.v), (&b"abc"[..], &b"def"[..]));
    assert!(matches!(reader.index_entry_at(IndexEntryPos(2040)), Err(CDBError::Corrupt)));
    assert!(matches!(reader.index_entry_at(IndexEntryPos(u64::MAX)), Err(CDBError::Corrupt)));
    assert!(matches!(
        reader.index_entry_at(IndexEntryPos(data.len() as u64 - 7)),
        Err(CDBError::Corrupt)
    ));
}

#[test]
fn little_endian_fields() {
    let mut data = vec![0u8; 2048];
    data[8..16].copy_from_slice(&[0x78, 0x56, 0x34, 0x12, 0xef, 0xcd, 0xab, 0x89]);
    let bucket = Reader::new(&data).bucket_at(1).unwrap();
    assert_eq!(bucket.ptr, 0x1234_5678);
    assert_eq!(bucket.num_ents, 0x89ab_cdef);
    let mut w = Writer::new();
    let record = w.put(&vec![0u8; 0x0102], &vec![0u8; 0x01_0203]);
    assert_eq!(&record[..8], &[0x02, 0x01, 0x00, 0x00, 0x03, 0x02, 0x01, 0x00]);
}

#[test]
fn lay_out_places_each_entry_at_its_first_free_slot() {
    let e = |hash: u32, ptr: u32| IndexEntry { hash: CDBHash(hash), ptr };
    assert_eq!(lay_out(&vec![]).len(), 0);
    // Preferred slots in a table of six: 1, 1, 5, 5, 5 (hash / 256 mod 6).
    let list = vec![e(1 << 8, 10), e(7 << 8, 20), e(5 << 8, 30), e(11 << 8, 40), e(17 << 8, 50)];
    let table = lay_out(&list[..3].to_vec());
    let got: Vec<u32> = table.iter().map(|s| s.ptr).collect();
    assert_eq!(got, vec![0, 10, 20, 0, 0, 30]);
    let table = lay_out(&list);
    let got: Vec<u32> = table.iter().map(|s| s.ptr).collect();
    // Ten slots now; preferred slots are 1, 7, 5, 1, 7.
    assert_eq!(got, vec![0, 10, 40, 0, 0, 30, 0, 20, 50, 0]);
    let hashes: Vec<u32> = table.iter().map(|s| s.hash.inner()).collect();
    assert_eq!(hashes, vec![0, 1 << 8, 11 << 8, 0, 0, 5 << 8, 0, 7 << 8, 17 << 8, 0]);
}

#[test]
fn encode_table_appends_hash_and_offset_of_each_slot() {
    let e = |hash: u32, ptr: u32| IndexEntry { hash: CDBHash(hash), ptr };
    let mut out = vec![0xeeu8];
    encode_table(&vec![e(0x0403_0201, 0x0807_0605), IndexEntry::default()], &mut out);
    assert_eq!(out, vec![0xee, 1, 2, 3, 4, 5, 6, 7, 8, 0, 0, 0, 0, 0, 0, 0, 0]);
    encode_table(&vec![], &mut out);
    assert_eq!(out.len(), 17);
}

#[test]
fn copy_slice_copies_what_fits() {
    let mut dst = [0u8; 4];
    assert_eq!(copy_slice(&mut dst, b"ab"), 2);
    assert_eq!(dst, [b'a', b'b', 0, 0]);
    assert_eq!(copy_slice(&mut dst, b"123456"), 4);
    assert_eq!(dst, [b'1', b'2', b'3', b'4']);
    assert_eq!(copy_slice(&mut dst, b""), 0);
    assert_eq!(dst, [b'1', b'2', b'3', b'4']);
}

#[test]
fn same_bytes_compares_byte_for_byte() {
    assert!(same_bytes(b"", b""));
    assert!(same_bytes(b"abc", b"abc"));
    assert!(!same_bytes(b"abc", b"abd"));
    assert!(!same_bytes(b"abc", b"ab"));
    assert!(!same_bytes(b"", b"a"));
}

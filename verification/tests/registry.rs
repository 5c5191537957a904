use timeable_mergeable_nft::error::Error;
use timeable_mergeable_nft::registry::decode_entry;
use timeable_mergeable_nft::registry::encode_entry;
use timeable_mergeable_nft::registry::Registry;
use timeable_mergeable_nft::registry::ScheduledEntry;

fn entry(index: u64, expiry: u64, burnt: bool) -> ScheduledEntry {
    ScheduledEntry { index, expiry, ledger: 77, token_id: 1000 + index, burnt }
}

#[test]
fn allocate_index_counts_up() {
    let mut r = Registry::new();
    assert_eq!(r.allocate_index(), 0);
    assert_eq!(r.allocate_index(), 1);
    assert_eq!(r.allocate_index(), 2);
}

#[test]
fn put_get_and_overwrite() {
    let mut r = Registry::new();
    let i = r.allocate_index();
    assert_eq!(r.get(i), None);
    r.put(i, entry(i, 50, false));
    assert_eq!(r.get(i), Some(entry(i, 50, false)));
    r.put(i, entry(i, 50, true));
    assert_eq!(r.get(i), Some(entry(i, 50, true)));
    assert_eq!(r.get(999), None);
}

#[test]
fn sparse_slots_stay_empty() {
    let mut r = Registry::new();
    let a = r.allocate_index();
    let b = r.allocate_index();
    r.put(b, entry(b, 10, false));
    assert_eq!(r.get(a), None);
    assert_eq!(r.get(b), Some(entry(b, 10, false)));
    assert_eq!(r.len(), 2);
}

#[test]
fn scan_ascending_and_skipping() {
    let mut r = Registry::new();
    for _ in 0..4 {
        r.allocate_index();
    }
    r.put(0, entry(0, 1, false));
    r.put(2, entry(2, 3, false));
    r.put(3, entry(3, 4, true));
    let all = r.scan(0, 4);
    assert_eq!(
        all,
        vec![(0, entry(0, 1, false)), (2, entry(2, 3, false)), (3, entry(3, 4, true))]
    );
    let mid = r.scan(1, 3);
    assert_eq!(mid, vec![(2, entry(2, 3, false))]);
    let empty = r.scan(2, 2);
    assert_eq!(empty, vec![]);
}

#[test]
fn scan_is_restartable() {
    let mut r = Registry::new();
    for i in 0..4 {
        r.allocate_index();
        r.put(i, entry(i, i + 1, false));
    }
    let mut stitched = r.scan(0, 2);
    stitched.extend(r.scan(2, 4));
    assert_eq!(stitched, r.scan(0, 4));
}

#[test]
fn entry_codec_round_trip() {
    let e = entry(3, u64::MAX, true);
    let bytes = encode_entry(&e);
    assert_eq!(bytes.len(), 33);
    assert_eq!(decode_entry(&bytes), Ok(e));
    let plain = entry(0, 0, false);
    assert_eq!(decode_entry(&encode_entry(&plain)), Ok(plain));
}

#[test]
fn entry_codec_exact_bytes() {
    let e = ScheduledEntry { index: 1, expiry: 2, ledger: 3, token_id: 4, burnt: true };
    let mut expected = Vec::new();
    expected.extend_from_slice(&1u64.to_le_bytes());
    expected.extend_from_slice(&2u64.to_le_bytes());
    expected.extend_from_slice(&3u64.to_le_bytes());
    expected.extend_from_slice(&4u64.to_le_bytes());
    expected.push(1);
    assert_eq!(encode_entry(&e), expected);
}

#[test]
fn entry_codec_rejects_corrupt_storage() {
    assert_eq!(decode_entry(&vec![0; 32]), Err(Error::FatalError));
    assert_eq!(decode_entry(&vec![0; 34]), Err(Error::FatalError));
    let mut bad_flag = encode_entry(&entry(0, 0, false));
    bad_flag[32] = 2;
    assert_eq!(decode_entry(&bad_flag), Err(Error::FatalError));
}

#[test]
fn error_codes_are_stable() {
    assert_eq!(Error::FatalError.user_code(), 0);
    assert_eq!(Error::AdminError.user_code(), 1);
    assert_eq!(Error::NotMergableNft.user_code(), 2);
    assert_eq!(Error::NotTimeableNft.user_code(), 3);
    assert_eq!(Error::InvalidOwner.user_code(), 4);
    assert_eq!(Error::DecodeError.user_code(), 5);
}

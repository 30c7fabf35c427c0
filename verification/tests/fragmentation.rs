use std::cell::Cell;

use gatt_read::cache::FragmentCache;
use gatt_read::engine::{
    answer, answer_descriptor, read_characteristic, read_descriptor, read_source, ReadSource,
};
use gatt_read::fragment::fragment;
use gatt_read::request::{
    ReadRequest, Response, ResponseStatus, MAX_CHUNK_SIZE, RESPONSE_LENGTH,
};

fn bytes(n: usize) -> Vec<u8> {
    (0..n).map(|i| (i % 251) as u8).collect()
}

fn request(handle: u16, offset: u16) -> ReadRequest {
    ReadRequest { handle, offset, conn_id: 3, trans_id: 0x0102_0304 }
}

/// Reads `handle` from offset zero on until a response carries fewer bytes
/// than a chunk, and returns the bytes gathered and the number of requests.
fn read_all<P: Fn(ReadRequest) -> Vec<u8>>(
    cache: &mut FragmentCache,
    provider: &P,
    handle: u16,
    chunk: u16,
) -> (Vec<u8>, usize) {
    let mut gathered = Vec::new();
    let mut offset: u16 = 0;
    let mut requests = 0;
    loop {
        let response = read_characteristic(cache, provider, request(handle, offset), chunk);
        requests += 1;
        assert_eq!(response.status, ResponseStatus::Success);
        assert_eq!(response.offset, offset);
        assert_eq!(response.len as usize, response.value.len());
        gathered.extend_from_slice(&response.value);
        if response.value.len() < chunk as usize {
            return (gathered, requests);
        }
        offset += chunk;
    }
}

#[test]
fn constants_have_their_values() {
    assert_eq!(MAX_CHUNK_SIZE, 22);
    assert_eq!(RESPONSE_LENGTH, 600);
    assert!(MAX_CHUNK_SIZE as usize <= RESPONSE_LENGTH);
}

#[test]
fn fragment_takes_a_full_chunk_from_the_front() {
    let value = bytes(50);
    assert_eq!(fragment(&value, 0, 22), value[0..22].to_vec());
}

#[test]
fn fragment_takes_a_full_chunk_from_the_middle() {
    let value = bytes(50);
    assert_eq!(fragment(&value, 22, 22), value[22..44].to_vec());
}

#[test]
fn fragment_takes_the_short_tail() {
    let value = bytes(50);
    assert_eq!(fragment(&value, 44, 22), value[44..50].to_vec());
}

#[test]
fn fragment_at_the_end_is_empty() {
    let value = bytes(50);
    assert_eq!(fragment(&value, 50, 22), Vec::<u8>::new());
}

#[test]
fn fragment_past_the_end_is_empty() {
    let value = bytes(50);
    assert_eq!(fragment(&value, 51, 22), Vec::<u8>::new());
    assert_eq!(fragment(&value, u16::MAX, 22), Vec::<u8>::new());
}

#[test]
fn fragment_of_an_empty_value_is_empty() {
    assert_eq!(fragment(&Vec::new(), 0, 22), Vec::<u8>::new());
}

#[test]
fn fragment_with_chunk_zero_is_empty() {
    assert_eq!(fragment(&bytes(5), 1, 0), Vec::<u8>::new());
}

#[test]
fn fragment_with_the_largest_chunk_and_offset_does_not_overflow() {
    let value = bytes(10);
    assert_eq!(fragment(&value, 4, u16::MAX), value[4..].to_vec());
    assert_eq!(fragment(&value, u16::MAX, u16::MAX), Vec::<u8>::new());
}

#[test]
fn cache_keeps_replaces_and_drops() {
    let mut cache = FragmentCache::new();
    assert_eq!(cache.len(), 0);
    assert!(!cache.contains(5));
    assert_eq!(cache.get(5), None);
    cache.insert(5, vec![1, 2, 3]);
    cache.insert(6, vec![4]);
    assert!(cache.contains(5));
    assert_eq!(cache.get(5), Some(&vec![1, 2, 3]));
    assert_eq!(cache.len(), 2);
    cache.insert(5, vec![9]);
    assert_eq!(cache.get(5), Some(&vec![9]));
    assert_eq!(cache.len(), 2);
    cache.remove(5);
    assert!(!cache.contains(5));
    assert_eq!(cache.get(6), Some(&vec![4]));
    cache.remove(5);
    assert_eq!(cache.len(), 1);
}

#[test]
fn read_source_asks_the_provider_without_an_entry() {
    let cache = FragmentCache::new();
    assert_eq!(read_source(&cache, &request(7, 0)), ReadSource::Provider);
    assert_eq!(read_source(&cache, &request(7, 22)), ReadSource::Provider);
}

#[test]
fn read_source_uses_the_cache_only_past_offset_zero() {
    let mut cache = FragmentCache::new();
    cache.insert(7, bytes(50));
    assert_eq!(read_source(&cache, &request(7, 0)), ReadSource::Provider);
    assert_eq!(read_source(&cache, &request(7, 1)), ReadSource::Cache);
    assert_eq!(read_source(&cache, &request(8, 1)), ReadSource::Provider);
}

#[test]
fn scenario_fifty_bytes_in_chunks_of_twenty_two() {
    let value = bytes(50);
    let calls = Cell::new(0usize);
    let provider = |_request: ReadRequest| {
        calls.set(calls.get() + 1);
        bytes(50)
    };
    let mut cache = FragmentCache::new();

    let first = read_characteristic(&mut cache, &provider, request(7, 0), 22);
    assert_eq!(first.value, value[0..22].to_vec());
    assert_eq!(first.len, 22);
    assert_eq!(first.offset, 0);
    assert_eq!(first.status, ResponseStatus::Success);
    assert_eq!(cache.get(7), Some(&value));
    assert_eq!(calls.get(), 1);

    let second = read_characteristic(&mut cache, &provider, request(7, 22), 22);
    assert_eq!(second.value, value[22..44].to_vec());
    assert_eq!(second.len, 22);
    assert_eq!(second.offset, 22);
    assert_eq!(cache.get(7), Some(&value));
    assert_eq!(calls.get(), 1);

    let third = read_characteristic(&mut cache, &provider, request(7, 44), 22);
    assert_eq!(third.value, value[44..50].to_vec());
    assert_eq!(third.len, 6);
    assert_eq!(third.offset, 44);
    assert!(!cache.contains(7));
    assert_eq!(cache.len(), 0);
    assert_eq!(calls.get(), 1);

    let fresh = read_characteristic(&mut cache, &provider, request(7, 0), 22);
    assert_eq!(fresh.value, value[0..22].to_vec());
    assert_eq!(calls.get(), 2);
}

#[test]
fn response_passes_the_identifiers_through() {
    let mut cache = FragmentCache::new();
    let provider = |_request: ReadRequest| bytes(3);
    let asked = ReadRequest { handle: 0x2a, offset: 1, conn_id: 9, trans_id: 77 };
    let response = read_characteristic(&mut cache, &provider, asked, 22);
    assert_eq!(
        response,
        Response {
            handle: 0x2a,
            value: vec![1, 2],
            offset: 1,
            len: 2,
            status: ResponseStatus::Success,
            conn_id: 9,
            trans_id: 77,
        }
    );
}

#[test]
fn provider_is_handed_the_request() {
    let seen = Cell::new(None);
    let provider = |asked: ReadRequest| {
        seen.set(Some(asked));
        bytes(4)
    };
    let mut cache = FragmentCache::new();
    let asked = ReadRequest { handle: 11, offset: 2, conn_id: 5, trans_id: 6 };
    read_characteristic(&mut cache, &provider, asked, 22);
    assert_eq!(seen.get(), Some(asked));
}

#[test]
fn round_trip_reproduces_the_value_for_many_lengths_and_chunks() {
    for chunk in [1u16, 2, 3, 7, 22, 23, 100, 599, 600, 601, u16::MAX] {
        for len in [0usize, 1, 2, 21, 22, 23, 43, 44, 45, 50, 66, 599, 600] {
            let value = bytes(len);
            let provider = |_request: ReadRequest| bytes(len);
            let mut cache = FragmentCache::new();
            let (gathered, _) = read_all(&mut cache, &provider, 7, chunk);
            assert_eq!(gathered, value, "length {} chunk {}", len, chunk);
            assert!(!cache.contains(7), "length {} chunk {}", len, chunk);
        }
    }
}

#[test]
fn provider_is_asked_once_per_long_read() {
    for chunk in [1u16, 5, 22, 100] {
        for len in [0usize, 1, 21, 23, 44, 50, 66, 600] {
            if len == chunk as usize {
                continue;
            }
            let calls = Cell::new(0usize);
            let provider = |_request: ReadRequest| {
                calls.set(calls.get() + 1);
                bytes(len)
            };
            let mut cache = FragmentCache::new();
            let (gathered, requests) = read_all(&mut cache, &provider, 7, chunk);
            assert_eq!(gathered, bytes(len));
            assert_eq!(calls.get(), 1, "length {} chunk {}", len, chunk);
            assert_eq!(requests, len / chunk as usize + 1);
        }
    }
}

#[test]
fn value_of_exactly_one_chunk_is_asked_for_twice() {
    let calls = Cell::new(0usize);
    let provider = |_request: ReadRequest| {
        calls.set(calls.get() + 1);
        bytes(22)
    };
    let mut cache = FragmentCache::new();
    let (gathered, requests) = read_all(&mut cache, &provider, 7, 22);
    assert_eq!(gathered, bytes(22));
    assert_eq!(requests, 2);
    assert_eq!(calls.get(), 2);
    assert_eq!(cache.len(), 0);
}

#[test]
fn value_of_a_whole_number_of_chunks_ends_with_an_empty_fragment() {
    let calls = Cell::new(0usize);
    let provider = |_request: ReadRequest| {
        calls.set(calls.get() + 1);
        bytes(44)
    };
    let mut cache = FragmentCache::new();
    let first = read_characteristic(&mut cache, &provider, request(7, 0), 22);
    assert_eq!(first.value.len(), 22);
    let second = read_characteristic(&mut cache, &provider, request(7, 22), 22);
    assert_eq!(second.value, bytes(44)[22..].to_vec());
    assert!(cache.contains(7));
    let third = read_characteristic(&mut cache, &provider, request(7, 44), 22);
    assert_eq!(third.value, Vec::<u8>::new());
    assert_eq!(third.len, 0);
    assert_eq!(third.status, ResponseStatus::Success);
    assert!(!cache.contains(7));
    assert_eq!(calls.get(), 1);
}

#[test]
fn short_value_is_returned_whole_and_not_cached() {
    for len in [0usize, 1, 21, 22] {
        let provider = |_request: ReadRequest| bytes(len);
        let mut cache = FragmentCache::new();
        cache.insert(9, vec![1]);
        let response = read_characteristic(&mut cache, &provider, request(7, 0), 22);
        assert_eq!(response.value, bytes(len));
        assert_eq!(response.len as usize, len);
        assert!(!cache.contains(7));
        assert_eq!(cache.len(), 1);
        assert_eq!(cache.get(9), Some(&vec![1]));
    }
}

#[test]
fn final_fragment_evicts_and_the_next_read_asks_again() {
    let calls = Cell::new(0usize);
    let provider = |_request: ReadRequest| {
        calls.set(calls.get() + 1);
        bytes(30)
    };
    let mut cache = FragmentCache::new();
    read_characteristic(&mut cache, &provider, request(7, 0), 22);
    read_characteristic(&mut cache, &provider, request(7, 22), 22);
    assert!(!cache.contains(7));
    assert_eq!(calls.get(), 1);
    let late = read_characteristic(&mut cache, &provider, request(7, 22), 22);
    assert_eq!(calls.get(), 2);
    assert_eq!(late.value, bytes(30)[22..].to_vec());
    assert!(!cache.contains(7));
}

#[test]
fn read_at_the_end_is_empty_and_evicts() {
    let provider = |_request: ReadRequest| bytes(50);
    let mut cache = FragmentCache::new();
    read_characteristic(&mut cache, &provider, request(7, 0), 22);
    assert!(cache.contains(7));
    let response = read_characteristic(&mut cache, &provider, request(7, 50), 22);
    assert_eq!(response.value, Vec::<u8>::new());
    assert_eq!(response.len, 0);
    assert_eq!(response.offset, 50);
    assert_eq!(response.status, ResponseStatus::Success);
    assert!(!cache.contains(7));
}

#[test]
fn read_past_the_end_is_empty_and_evicts() {
    let provider = |_request: ReadRequest| bytes(50);
    let mut cache = FragmentCache::new();
    read_characteristic(&mut cache, &provider, request(7, 0), 22);
    let response = read_characteristic(&mut cache, &provider, request(7, 5000), 22);
    assert_eq!(response.value, Vec::<u8>::new());
    assert_eq!(response.len, 0);
    assert!(!cache.contains(7));
}

#[test]
fn read_past_the_end_without_an_entry_asks_the_provider_and_caches_nothing() {
    let calls = Cell::new(0usize);
    let provider = |_request: ReadRequest| {
        calls.set(calls.get() + 1);
        bytes(50)
    };
    let mut cache = FragmentCache::new();
    let response = read_characteristic(&mut cache, &provider, request(7, 60), 22);
    assert_eq!(response.value, Vec::<u8>::new());
    assert_eq!(calls.get(), 1);
    assert_eq!(cache.len(), 0);
}

#[test]
fn fresh_read_replaces_a_stale_entry() {
    let provider = |_request: ReadRequest| bytes(50);
    let mut cache = FragmentCache::new();
    cache.insert(7, vec![0xee; 40]);
    let first = read_characteristic(&mut cache, &provider, request(7, 0), 22);
    assert_eq!(first.value, bytes(50)[..22].to_vec());
    assert_eq!(cache.get(7), Some(&bytes(50)));
    let second = read_characteristic(&mut cache, &provider, request(7, 22), 22);
    assert_eq!(second.value, bytes(50)[22..44].to_vec());
}

#[test]
fn continuation_is_served_from_the_cache_and_not_by_the_provider() {
    let calls = Cell::new(0usize);
    let provider = |_request: ReadRequest| {
        calls.set(calls.get() + 1);
        bytes(50)
    };
    let mut cache = FragmentCache::new();
    cache.insert(7, vec![0xee; 40]);
    let response = read_characteristic(&mut cache, &provider, request(7, 22), 22);
    assert_eq!(response.value, vec![0xee; 18]);
    assert_eq!(calls.get(), 0);
    assert!(!cache.contains(7));
}

#[test]
fn reads_of_other_handles_leave_an_entry_alone() {
    let provider = |asked: ReadRequest| bytes(30 + asked.handle as usize);
    let mut cache = FragmentCache::new();
    read_characteristic(&mut cache, &provider, request(7, 0), 22);
    read_characteristic(&mut cache, &provider, request(8, 0), 22);
    assert_eq!(cache.get(7), Some(&bytes(37)));
    assert_eq!(cache.get(8), Some(&bytes(38)));
    let tail = read_characteristic(&mut cache, &provider, request(8, 22), 22);
    assert_eq!(tail.value, bytes(38)[22..].to_vec());
    assert!(cache.contains(7));
    assert!(!cache.contains(8));
}

#[test]
fn value_longer_than_a_frame_is_refused() {
    let provider = |_request: ReadRequest| bytes(601);
    let mut cache = FragmentCache::new();
    cache.insert(7, vec![1; 30]);
    let response = read_characteristic(&mut cache, &provider, request(7, 0), 22);
    assert_eq!(
        response,
        Response {
            handle: 7,
            value: Vec::new(),
            offset: 0,
            len: 0,
            status: ResponseStatus::InvalidAttributeLength,
            conn_id: 3,
            trans_id: 0x0102_0304,
        }
    );
    assert!(!cache.contains(7));
}

#[test]
fn value_that_just_fits_a_frame_is_served() {
    let provider = |_request: ReadRequest| bytes(600);
    let mut cache = FragmentCache::new();
    let response = read_characteristic(&mut cache, &provider, request(7, 0), 600);
    assert_eq!(response.status, ResponseStatus::Success);
    assert_eq!(response.value, bytes(600));
    assert_eq!(response.len, 600);
    assert!(!cache.contains(7));
}

#[test]
fn answer_keeps_a_fresh_long_value() {
    let mut cache = FragmentCache::new();
    let response = answer(&mut cache, request(7, 0), ReadSource::Provider, bytes(23), 22);
    assert_eq!(response.value, bytes(22));
    assert_eq!(cache.get(7), Some(&bytes(23)));
}

#[test]
fn answer_does_not_keep_a_value_handed_over_as_cached() {
    let mut cache = FragmentCache::new();
    let response = answer(&mut cache, request(7, 1), ReadSource::Cache, bytes(50), 22);
    assert_eq!(response.value, bytes(50)[1..23].to_vec());
    assert_eq!(cache.len(), 0);
}

#[test]
fn answer_with_chunk_zero_returns_nothing_and_evicts_nothing() {
    let mut cache = FragmentCache::new();
    let response = answer(&mut cache, request(7, 0), ReadSource::Provider, bytes(5), 0);
    assert_eq!(response.value, Vec::<u8>::new());
    assert_eq!(response.len, 0);
    assert_eq!(response.status, ResponseStatus::Success);
    assert_eq!(cache.get(7), Some(&bytes(5)));
}

#[test]
fn descriptor_value_is_returned_whole_at_offset_zero() {
    let calls = Cell::new(0usize);
    let provider = |_request: ReadRequest| {
        calls.set(calls.get() + 1);
        bytes(50)
    };
    let response = read_descriptor(&provider, request(12, 30));
    assert_eq!(
        response,
        Response {
            handle: 12,
            value: bytes(50),
            offset: 0,
            len: 50,
            status: ResponseStatus::Success,
            conn_id: 3,
            trans_id: 0x0102_0304,
        }
    );
    assert_eq!(calls.get(), 1);
    read_descriptor(&provider, request(12, 30));
    assert_eq!(calls.get(), 2);
}

#[test]
fn descriptor_value_longer_than_a_frame_is_refused() {
    let response = answer_descriptor(request(12, 0), bytes(601));
    assert_eq!(response.status, ResponseStatus::InvalidAttributeLength);
    assert_eq!(response.value, Vec::<u8>::new());
    assert_eq!(response.len, 0);
    assert_eq!(response.offset, 0);
    let fits = answer_descriptor(request(12, 0), bytes(600));
    assert_eq!(fits.status, ResponseStatus::Success);
    assert_eq!(fits.value, bytes(600));
    assert_eq!(fits.len, 600);
}

#[test]
fn frame_holds_the_bytes_and_then_zeros() {
    let mut cache = FragmentCache::new();
    let provider = |_request: ReadRequest| vec![7u8; 50];
    let response = read_characteristic(&mut cache, &provider, request(7, 44), 22);
    let frame = response.frame().unwrap();
    assert_eq!(frame.len(), RESPONSE_LENGTH);
    assert_eq!(frame[..6].to_vec(), vec![7u8; 6]);
    assert!(frame[6..].iter().all(|byte| *byte == 0));
}

#[test]
fn frame_refuses_more_bytes_than_it_can_carry() {
    let response = Response {
        handle: 1,
        value: vec![1; 601],
        offset: 0,
        len: 601,
        status: ResponseStatus::Success,
        conn_id: 0,
        trans_id: 0,
    };
    assert!(response.frame().is_none());
    let full = Response { value: vec![1; 600], len: 600, ..response };
    assert_eq!(full.frame().unwrap().to_vec(), vec![1u8; 600]);
}

#[test]
fn fresh_read_of_exactly_one_chunk_leaves_an_older_entry_in_place() {
    let provider = |_request: ReadRequest| bytes(22);
    let mut cache = FragmentCache::new();
    cache.insert(7, vec![0xee; 40]);
    let first = read_characteristic(&mut cache, &provider, request(7, 0), 22);
    assert_eq!(first.value, bytes(22));
    assert_eq!(cache.get(7), Some(&vec![0xee; 40]));
    let second = read_characteristic(&mut cache, &provider, request(7, 22), 22);
    assert_eq!(second.value, vec![0xee; 18]);
    assert!(!cache.contains(7));
}

use wavepool::telemetry::{make_batch_url, Batch, Channel, BATCH_INDEX_WIDTH};

fn items_of<T: Clone>(batch: &Batch<T>) -> Vec<T> {
    batch.items.clone()
}

#[test]
fn batch_url_pads_to_six_digits() {
    assert_eq!(BATCH_INDEX_WIDTH, 6);
    assert_eq!(make_batch_url("tlm/x/flight", 0), "tlm/x/flight_000000.parquet");
    assert_eq!(make_batch_url("tlm/x/flight", 42), "tlm/x/flight_000042.parquet");
    assert_eq!(make_batch_url("base", 999999), "base_999999.parquet");
}

#[test]
fn batch_url_keeps_long_numbers_whole() {
    assert_eq!(make_batch_url("b", 1234567), "b_1234567.parquet");
    assert_eq!(
        make_batch_url("", usize::MAX),
        format!("_{}.parquet", usize::MAX)
    );
}

#[test]
fn batch_url_matches_std_formatting() {
    for n in [0usize, 1, 9, 10, 99, 100, 12345, 100000, 654321, 7654321, 1 << 40] {
        assert_eq!(make_batch_url("tlm/a/physics", n), format!("{}_{:06}.parquet", "tlm/a/physics", n));
    }
}

#[test]
fn distinct_batch_numbers_give_distinct_files() {
    let mut urls: Vec<String> = (0..2000usize).map(|i| make_batch_url("w", i)).collect();
    urls.sort();
    urls.dedup();
    assert_eq!(urls.len(), 2000);
}

#[test]
fn channel_hands_out_full_batches() {
    let mut c: Channel<u32> = Channel::new(String::from("tlm/t/flight"), 3);
    assert!(c.write(1).is_none());
    assert!(c.write(2).is_none());
    let b = c.write(3).expect("third record completes a batch");
    assert_eq!(b.index, 0);
    assert_eq!(b.url, "tlm/t/flight_000000.parquet");
    assert_eq!(items_of(&b), vec![1, 2, 3]);
    assert!(c.write(4).is_none());
    assert!(c.write(5).is_none());
    let b = c.write(6).expect("sixth record completes a batch");
    assert_eq!(b.index, 1);
    assert_eq!(b.url, "tlm/t/flight_000001.parquet");
    assert_eq!(items_of(&b), vec![4, 5, 6]);
}

#[test]
fn close_hands_out_the_rest() {
    let mut c: Channel<u32> = Channel::new(String::from("q"), 3);
    for i in 0..4 {
        let _ = c.write(i);
    }
    let last = c.close().expect("one record was left");
    assert_eq!(last.index, 1);
    assert_eq!(last.url, "q_000001.parquet");
    assert_eq!(items_of(&last), vec![3]);
    assert!(c.close().is_none());
    let next = {
        let _ = c.write(9);
        c.close().expect("one record")
    };
    assert_eq!(next.index, 2);
}

#[test]
fn close_of_an_empty_channel_hands_out_nothing() {
    let mut c: Channel<u8> = Channel::new(String::from("e"), 5);
    assert!(c.close().is_none());
    let _ = c.write(1);
    let b = c.close().unwrap();
    assert_eq!(b.index, 0);
}

#[test]
fn batch_size_zero_flushes_every_record() {
    let mut c: Channel<u8> = Channel::new(String::from("z"), 0);
    for i in 0..5u8 {
        let b = c.write(i).expect("every write flushes");
        assert_eq!(b.index, i as usize);
        assert_eq!(items_of(&b), vec![i]);
    }
    assert!(c.close().is_none());
}

#[test]
fn batch_size_one_flushes_every_record() {
    let mut c: Channel<u8> = Channel::new(String::from("o"), 1);
    let b = c.write(7).unwrap();
    assert_eq!(items_of(&b), vec![7]);
    assert_eq!(b.url, "o_000000.parquet");
}

#[test]
fn records_come_out_once_and_in_order() {
    let mut c: Channel<u64> = Channel::new(String::from("r"), 7);
    let mut out: Vec<u64> = Vec::new();
    let mut indices: Vec<usize> = Vec::new();
    for i in 0..100u64 {
        if let Some(b) = c.write(i * 3 + 1) {
            assert_eq!(b.items.len(), 7);
            indices.push(b.index);
            out.extend(b.items);
        }
    }
    if let Some(b) = c.close() {
        indices.push(b.index);
        out.extend(b.items);
    }
    let expected: Vec<u64> = (0..100u64).map(|i| i * 3 + 1).collect();
    assert_eq!(out, expected);
    assert_eq!(indices, (0..15usize).collect::<Vec<_>>());
}

#[test]
fn writes_then_close_give_ceil_many_slices() {
    let items: Vec<u32> = (0..10).collect();
    let mut c: Channel<u32> = Channel::new(String::from("s"), 3);
    let mut all: Vec<Batch<u32>> = Vec::new();
    for &x in &items {
        if let Some(b) = c.write(x) {
            all.push(b);
        }
    }
    if let Some(b) = c.close() {
        all.push(b);
    }
    assert_eq!(all.len(), 4);
    for (j, b) in all.iter().enumerate() {
        let end = usize::min(j * 3 + 3, items.len());
        assert_eq!(b.items, items[j * 3..end].to_vec());
        assert_eq!(b.index, j);
        assert_eq!(b.url, format!("s_{:06}.parquet", j));
    }
    assert!(c.close().is_none());
}

use parallel_processor::async_reader::{AsyncBinaryReader, AsyncReaderThread, OpenedFile};
use parallel_processor::buckets::{
    BucketProcessData, BucketsThreadBuffer, BucketsThreadDispatcher, MultiThreadBuckets,
};
use parallel_processor::counters::CounterEntry;
use parallel_processor::manager::{ExecutionManager, ExecutionManagerTrait, ExecutionStatus, PacketCounter};
use parallel_processor::packet_pool::{ExecutorAddress, Packet, PacketsPool, WeakExecutorAddress};
use parallel_processor::readers::{CompressedBinaryReader, LockFreeBinaryReader, RemoveFileMode};
use parallel_processor::records::{decode_all_items, BucketItem, BytesRecord, ReadRef};
use parallel_processor::summary::{counters_sorting, CountersResult};
use parallel_processor::varint::{decode_varint, decode_varint_flags, encode_varint, encode_varint_flags};

fn addr() -> WeakExecutorAddress {
    WeakExecutorAddress { executor_kind: 1, instance_id: 7 }
}

fn write_records(
    keys: &[usize],
    payloads: &[&str],
    bucket_count: usize,
    compression_level: u32,
) -> Vec<parallel_processor::segments::FinalizedBucket> {
    let mut buckets = MultiThreadBuckets::new(bucket_count, compression_level, 16);
    let mut dispatcher = BucketsThreadDispatcher::new(BucketsThreadBuffer::new(8, bucket_count));
    for (k, p) in keys.iter().zip(payloads.iter()) {
        let rec = BytesRecord { data: p.as_bytes().to_vec() };
        dispatcher.add_element::<BytesRecord>(&mut buckets, *k, &(), &rec);
    }
    dispatcher.finalize(&mut buckets);
    buckets.finalize()
}

fn decoded_payloads(bucket: parallel_processor::segments::FinalizedBucket) -> Vec<String> {
    let compressed = bucket.store.compressed();
    let items: Vec<(BytesRecord, ())> = if compressed {
        CompressedBinaryReader::new(bucket, RemoveFileMode::Keep, None)
            .decode_all_bucket_items::<BytesRecord>()
    } else {
        LockFreeBinaryReader::new(bucket, RemoveFileMode::Keep, None)
            .decode_all_bucket_items::<BytesRecord>()
    };
    items
        .into_iter()
        .map(|(r, _)| String::from_utf8(r.data).unwrap())
        .collect()
}

#[test]
fn varint_exact_bytes() {
    let mut out: Vec<u8> = Vec::new();
    encode_varint(&mut out, 0);
    encode_varint(&mut out, 127);
    encode_varint(&mut out, 128);
    encode_varint(&mut out, u64::MAX);
    assert_eq!(&out[0..1], &[0]);
    assert_eq!(&out[1..2], &[127]);
    assert_eq!(&out[2..4], &[0x80, 0x01]);
    let (v, p) = decode_varint(&out, 0).unwrap();
    assert_eq!((v, p), (0, 1));
    let (v, p) = decode_varint(&out, 1).unwrap();
    assert_eq!((v, p), (127, 2));
    let (v, p) = decode_varint(&out, 2).unwrap();
    assert_eq!((v, p), (128, 4));
    let (v, p) = decode_varint(&out, 4).unwrap();
    assert_eq!(v, u64::MAX);
    assert_eq!(p, out.len());
}

#[test]
fn varint_rejects_truncated_input() {
    // A lone continuation byte has no terminator.
    let bytes = vec![0x80u8];
    assert!(decode_varint(&bytes, 0).is_none());
    // Ten continuation bytes then a large terminator overflow a u64.
    let mut big = vec![0xffu8; 10];
    big.push(0x7f);
    assert!(decode_varint(&big, 0).is_none());
}

#[test]
fn varint_flags_round_trip() {
    // Two flag bits: the first byte keeps 32 low values (limit = 128 / 2^2).
    let limit = 32u8;
    for (value, flags) in [(0u64, 0u8), (31, 3), (32, 1), (1000, 2), (u64::MAX, 3)] {
        let mut out: Vec<u8> = Vec::new();
        encode_varint_flags(&mut out, value, flags, limit);
        let ((v, f), p) = decode_varint_flags(&out, 0, limit).unwrap();
        assert_eq!((v, f), (value, flags));
        assert_eq!(p, out.len());
    }
}

#[test]
fn read_ref_unpack() {
    // A record: flags-varint length prefix (3 bases), then 1 packed byte.
    let mut memory: Vec<u8> = Vec::new();
    encode_varint_flags(&mut memory, 3, 2, 32);
    memory.push(0xAB);
    memory.push(0xFF); // trailing extra data, not part of the bases
    let r = ReadRef { read_start: 0, hash: 0 };
    let (flags, bases, next) = r.unpack(&memory, 32).unwrap();
    assert_eq!(flags, 2);
    assert_eq!(bases, vec![0xAB]);
    assert_eq!(next, 2);
}

#[test]
fn bucket_writer_shards_in_order() {
    // Writer with 4 buckets receiving keys 0,1,2,3,0,1.
    let finished = write_records(
        &[0, 1, 2, 3, 0, 1],
        &["R0", "R1", "R2", "R3", "R4", "R5"],
        4,
        0,
    );
    assert_eq!(finished.len(), 4);
    let mut it = finished.into_iter();
    assert_eq!(decoded_payloads(it.next().unwrap()), vec!["R0", "R4"]);
    assert_eq!(decoded_payloads(it.next().unwrap()), vec!["R1", "R5"]);
    assert_eq!(decoded_payloads(it.next().unwrap()), vec!["R2"]);
    assert_eq!(decoded_payloads(it.next().unwrap()), vec!["R3"]);
}

#[test]
fn round_trip_compressed_bucket() {
    let payloads: Vec<String> = (0..40).map(|i| format!("record-{i}-0123456789")).collect();
    let refs: Vec<&str> = payloads.iter().map(|s| s.as_str()).collect();
    let keys = vec![0usize; 40];
    let finished = write_records(&keys, &refs, 1, 3);
    let bucket = finished.into_iter().next().unwrap();
    assert!(bucket.store.compressed());
    // The stored segments are compressed images, not the raw bytes.
    assert!(bucket.store.chunk_count() > 0);
    let raw = bucket.store.raw_segment(0);
    let chunk = bucket.store.read_chunk(0);
    assert_ne!(raw, chunk);
    assert_eq!(decoded_payloads(bucket), payloads);
}

#[test]
fn async_reader_round_trip() {
    let payloads: Vec<String> = (0..25).map(|i| format!("async-{i}-payload")).collect();
    let refs: Vec<&str> = payloads.iter().map(|s| s.as_str()).collect();
    let keys = vec![0usize; 25];
    for level in [0u32, 5] {
        let finished = write_records(&keys, &refs, 1, level);
        let bucket = finished.into_iter().next().unwrap();
        let mut thread = AsyncReaderThread::new(7, 2);
        let reader = AsyncBinaryReader::new("bucket-0".to_string(), bucket, RemoveFileMode::Keep, None);
        let items: Vec<(BytesRecord, ())> = reader.decode_all_bucket_items(&mut thread);
        let got: Vec<String> =
            items.into_iter().map(|(r, _)| String::from_utf8(r.data).unwrap()).collect();
        assert_eq!(got, payloads);
        // The core is ready again and holds its full pool: no buffer leaked.
        assert_eq!(thread.available_buffers(), 2);
        assert!(!thread.file_open());
    }
}

#[test]
fn async_reader_rejects_double_open() {
    let finished = write_records(&[0], &["one"], 1, 0);
    let bucket = finished.into_iter().next().unwrap();
    let mut thread = AsyncReaderThread::new(4, 2);
    let file = OpenedFile::Plain(LockFreeBinaryReader::new(bucket, RemoveFileMode::Keep, None));
    let stream = thread.try_read_bucket(file).ok().unwrap();
    assert!(thread.file_open() || thread.available_buffers() < 2);
    // A second open while the first bucket is in progress must fail fast
    // and hand the file back, leaving the open bucket untouched.
    let finished2 = write_records(&[0], &["two"], 1, 0);
    let bucket2 = finished2.into_iter().next().unwrap();
    let file2 = OpenedFile::Plain(LockFreeBinaryReader::new(bucket2, RemoveFileMode::Keep, None));
    let denied = thread.try_read_bucket(file2);
    assert!(denied.is_err());
    // After the stream is finished, the instance accepts the next bucket.
    let mut stream = stream;
    let mut collected: Vec<u8> = Vec::new();
    loop {
        let chunk = stream.read(&mut thread, 3);
        if chunk.is_empty() {
            break;
        }
        collected.extend_from_slice(&chunk);
    }
    stream.finish(&mut thread);
    assert_eq!(thread.available_buffers(), 2);
    let file2 = match denied {
        Err(f) => f,
        Ok(_) => unreachable!(),
    };
    let stream2 = thread.try_read_bucket(file2);
    assert!(stream2.is_ok());
    stream2.ok().unwrap().finish(&mut thread);
}

#[test]
fn async_stream_drop_mid_read_returns_buffers() {
    let payloads: Vec<String> = (0..30).map(|i| format!("chunk-{i}")).collect();
    let refs: Vec<&str> = payloads.iter().map(|s| s.as_str()).collect();
    let finished = write_records(&vec![0usize; 30], &refs, 1, 0);
    let bucket = finished.into_iter().next().unwrap();
    let mut thread = AsyncReaderThread::new(5, 3);
    let file = OpenedFile::Plain(LockFreeBinaryReader::new(bucket, RemoveFileMode::Keep, None));
    let mut stream = thread.read_bucket(file);
    let _ = stream.read(&mut thread, 4);
    // Abandon the stream mid-bucket: every buffer must come back.
    stream.finish(&mut thread);
    assert_eq!(thread.available_buffers(), 3);
    assert!(!thread.file_open());
}

#[test]
fn packet_pool_strict_exhaustion() {
    // Capacity 2, strict mode: two allocations succeed, the third fails
    // immediately, and releasing one packet lets the next succeed.
    let mut pool: PacketsPool<Vec<u8>> = PacketsPool::new(vec![Vec::new(), Vec::new()]);
    let a = pool.alloc_packet();
    assert!(a.is_some());
    let b = pool.alloc_packet();
    assert!(b.is_some());
    assert!(pool.alloc_packet().is_none());
    pool.release_packet(a.unwrap());
    assert!(pool.alloc_packet().is_some());
}

#[test]
fn executor_address_to_weak() {
    let a = ExecutorAddress { executor_kind: 3, instance_id: 11 };
    let w = a.to_weak();
    assert_eq!(w.executor_kind, 3);
    assert_eq!(w.instance_id, 11);
}

fn input_packet(pool: &mut PacketsPool<Vec<u8>>) -> Packet<Vec<u8>> {
    pool.alloc_packet().unwrap()
}

#[test]
fn manager_status_sequence() {
    // Four polls: packets with queue still non-empty, then the last packet,
    // then an empty-but-open queue, then a closed queue.
    let exec = PacketCounter { processed: 0, done: false, forward_to: None };
    let pool: PacketsPool<Vec<u8>> = PacketsPool::new(vec![]);
    let mut input_pool: PacketsPool<Vec<u8>> =
        PacketsPool::new(vec![Vec::new(), Vec::new(), Vec::new(), Vec::new()]);
    let mut mgr = ExecutionManager::new(exec, false, pool, 3, addr());
    let mut outputs = Vec::new();
    let p1 = input_packet(&mut input_pool);
    let (s1, back) = mgr.execute(Some(p1), Some(3), &mut outputs);
    assert!(back.is_none());
    assert_eq!(s1, ExecutionStatus::MorePackets);
    let p2 = input_packet(&mut input_pool);
    let (s2, _) = mgr.execute(Some(p2), Some(0), &mut outputs);
    assert_eq!(s2, ExecutionStatus::NoMorePackets);
    let (s3, _) = mgr.execute(None, Some(0), &mut outputs);
    assert_eq!(s3, ExecutionStatus::NoMorePacketsNoProgress);
    let (s4, _) = mgr.execute(None, None, &mut outputs);
    assert_eq!(s4, ExecutionStatus::Finished);
    // Finished is sticky: the executor is never invoked again.
    let p3 = input_packet(&mut input_pool);
    let (s5, back) = mgr.execute(Some(p3), Some(9), &mut outputs);
    assert_eq!(s5, ExecutionStatus::Finished);
    assert!(back.is_some());
    assert!(mgr.is_finished());
}

#[test]
fn manager_finished_on_closed_queue() {
    // A permanently closed, empty queue yields Finished, never NoMorePackets.
    let exec = PacketCounter { processed: 0, done: false, forward_to: None };
    let pool: PacketsPool<Vec<u8>> = PacketsPool::new(vec![]);
    let mut mgr = ExecutionManager::new(exec, false, pool, 0, addr());
    let mut outputs = Vec::new();
    let (s, _) = mgr.execute(None, None, &mut outputs);
    assert_eq!(s, ExecutionStatus::Finished);
    assert!(mgr.is_finished());
    let (s2, _) = mgr.execute(None, Some(5), &mut outputs);
    assert_eq!(s2, ExecutionStatus::Finished);
}

#[test]
fn manager_output_pool_full() {
    // A forwarding stage with a zero-capacity output pool: the step reports
    // OutputPoolFull and hands the packet back unprocessed.
    let target = ExecutorAddress { executor_kind: 2, instance_id: 1 };
    let exec = PacketCounter { processed: 0, done: false, forward_to: Some(target) };
    let pool: PacketsPool<Vec<u8>> = PacketsPool::new(vec![]);
    let mut mgr = ExecutionManager::new(exec, false, pool, 1, addr());
    let mut outputs = Vec::new();
    let mut input_pool: PacketsPool<Vec<u8>> = PacketsPool::new(vec![Vec::new()]);
    let p = input_pool.alloc_packet().unwrap();
    let (s, back) = mgr.execute(Some(p), Some(1), &mut outputs);
    assert_eq!(s, ExecutionStatus::OutputPoolFull);
    let back = back.expect("packet handed back for retry");
    assert!(outputs.is_empty());
    assert!(!mgr.is_finished());
    // With room in the output pool, the retried packet is processed and one
    // output is routed to the target.
    let exec2 = PacketCounter { processed: 0, done: false, forward_to: Some(target) };
    let pool2: PacketsPool<Vec<u8>> = PacketsPool::new(vec![Vec::new()]);
    let mut mgr2 = ExecutionManager::new(exec2, false, pool2, 0, addr());
    let (s2, back2) = mgr2.execute(Some(back), Some(0), &mut outputs);
    assert_eq!(s2, ExecutionStatus::NoMorePackets);
    assert!(back2.is_none());
    assert_eq!(outputs.len(), 1);
    assert_eq!(outputs[0].0, target);
}

#[test]
fn manager_finished_during_setup() {
    let exec = PacketCounter { processed: 0, done: false, forward_to: None };
    let pool: PacketsPool<Vec<u8>> = PacketsPool::new(vec![]);
    // Build parameter true: the stage reports finished right after setup.
    let mut mgr = ExecutionManager::new(exec, true, pool, 0, addr());
    let mut outputs = Vec::new();
    let mut input_pool: PacketsPool<Vec<u8>> = PacketsPool::new(vec![Vec::new()]);
    let p = input_packet(&mut input_pool);
    let (s, back) = mgr.execute(Some(p), Some(1), &mut outputs);
    assert_eq!(s, ExecutionStatus::Finished);
    // The unconsumed packet comes back to the caller.
    assert!(back.is_some());
}

fn counters_bucket(entries: &[(u64, u64, u64)], compression_level: u32) -> parallel_processor::segments::FinalizedBucket {
    let mut buckets = MultiThreadBuckets::new(1, compression_level, 64);
    let mut dispatcher = BucketsThreadDispatcher::new(BucketsThreadBuffer::new(16, 1));
    for (q, c, color) in entries {
        let e = CounterEntry { query_index: *q, counter: *c };
        dispatcher.add_element::<CounterEntry>(&mut buckets, 0, color, &e);
    }
    dispatcher.finalize(&mut buckets);
    buckets.finalize().into_iter().next().unwrap()
}

#[test]
fn counters_summary_rows() {
    // Query 1 sees 3 + 2 matches, query 2 sees 5, query 3 none.
    let b1 = counters_bucket(&[(1, 3, 0), (2, 5, 0)], 0);
    let b2 = counters_bucket(&[(1, 2, 0)], 0);
    let kmers = vec![10u64, 4, 8];
    let result = counters_sorting(vec![b1, b2], false, 0, 0, 64, 16, &kmers);
    let rows = match result {
        CountersResult::Summary(rows) => rows,
        _ => unreachable!(),
    };
    assert_eq!(rows.len(), 3);
    assert_eq!(rows[0].query_index, "0");
    assert_eq!(rows[0].matched_kmers, "5");
    assert_eq!(rows[0].query_kmers, "10");
    assert_eq!(rows[0].match_percentage, "0.50");
    assert_eq!(rows[1].matched_kmers, "5");
    assert_eq!(rows[1].query_kmers, "4");
    assert_eq!(rows[1].match_percentage, "1.25");
    assert_eq!(rows[2].matched_kmers, "0");
    assert_eq!(rows[2].match_percentage, "0.00");
}

#[test]
fn counters_colored_buckets() {
    // Two entries of one (query, color) key merge; colors shard by modulo.
    let b = counters_bucket(&[(1, 3, 5), (1, 4, 5), (2, 7, 4)], 0);
    let kmers = vec![10u64];
    let result = counters_sorting(vec![b], true, 2, 0, 64, 16, &kmers);
    let outs = match result {
        CountersResult::ColoredBuckets(outs) => outs,
        _ => unreachable!(),
    };
    assert_eq!(outs.len(), 2);
    // Color 4 lands in bucket 0, color 5 in bucket 1.
    let bucket0 = outs.into_iter().collect::<Vec<_>>();
    let mut iter = bucket0.into_iter();
    let first = iter.next().unwrap();
    let second = iter.next().unwrap();
    let e0: Vec<(CounterEntry, u64)> =
        LockFreeBinaryReader::new(first, RemoveFileMode::Keep, None)
            .decode_all_bucket_items::<CounterEntry>();
    let e1: Vec<(CounterEntry, u64)> =
        LockFreeBinaryReader::new(second, RemoveFileMode::Keep, None)
            .decode_all_bucket_items::<CounterEntry>();
    assert_eq!(e0, vec![(CounterEntry { query_index: 2, counter: 7 }, 4)]);
    assert_eq!(e1, vec![(CounterEntry { query_index: 1, counter: 7 }, 5)]);
}

#[test]
fn bucket_process_data_queues_outputs() {
    let mut data = BucketProcessData::new(42, 2, 0, 16);
    let rec = BytesRecord { data: b"x".to_vec() };
    let mut buf = Vec::new();
    rec.write_to(&mut buf, &());
    data.buckets.add_data(1, &buf);
    let mut queue = Vec::new();
    data.finish(&mut queue);
    assert_eq!(queue.len(), 2);
    assert_eq!(decoded_payloads(queue.pop().unwrap()), vec!["x"]);
    assert!(decoded_payloads(queue.pop().unwrap()).is_empty());
}

#[test]
fn decode_stops_at_garbage() {
    // A valid record followed by a truncated one: only the first decodes.
    let mut bytes = Vec::new();
    let rec = BytesRecord { data: b"ok".to_vec() };
    rec.write_to(&mut bytes, &());
    bytes.push(200); // length prefix with continuation bit and nothing after
    let items: Vec<(BytesRecord, ())> = decode_all_items(&bytes);
    assert_eq!(items.len(), 1);
    assert_eq!(items[0].0.data, b"ok");
}

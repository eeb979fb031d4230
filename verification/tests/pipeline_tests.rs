use ntcrack::codec::{decode_hash_record, ParseError};
use ntcrack::dispatch::Dispatcher;
use ntcrack::targets::TargetSet;
use ntcrack::worker::{format_match, ntlm_hash, process_batch, Worker};

const PASSWORD_HASH: &str = "8846f7eaee8fb117ad06bdd830b7586c";

fn password_target_set() -> TargetSet {
    let mut data = Vec::new();
    data.extend(PASSWORD_HASH.as_bytes());
    data.push(b'\n');
    TargetSet::build(&data).expect("target file must parse")
}

#[test]
fn build_accepts_final_line_without_newline() {
    let ts = TargetSet::build(PASSWORD_HASH.as_bytes()).expect("must parse");
    assert_eq!(ts.size(), 1);
}

#[test]
fn build_rejects_malformed_records() {
    assert!(matches!(
        TargetSet::build(b"abc\n"),
        Err(ParseError::WrongLength)
    ));
    assert!(matches!(
        TargetSet::build(b"zz46f7eaee8fb117ad06bdd830b7586c\n"),
        Err(ParseError::NotHex)
    ));
    // A blank line inside the file is a malformed record.
    let mut data = Vec::new();
    data.extend(PASSWORD_HASH.as_bytes());
    data.push(b'\n');
    data.push(b'\n');
    data.extend(PASSWORD_HASH.as_bytes());
    data.push(b'\n');
    assert!(matches!(
        TargetSet::build(&data),
        Err(ParseError::WrongLength)
    ));
}

#[test]
fn membership_and_cheap_reject_soundness() {
    let ts = password_target_set();
    let hit = decode_hash_record(PASSWORD_HASH.as_bytes()).unwrap();
    assert!(ts.contains(&hit));
    // A held digest is never cheap-rejected.
    assert!(!ts.cheap_reject(&hit));
    // A digest whose first byte no target starts with is rejected...
    let mut other = hit;
    other[0] = other[0].wrapping_add(1);
    assert!(ts.cheap_reject(&other));
    // ...and rejection is sound: it is indeed no member.
    assert!(!ts.contains(&other));
}

#[test]
fn big_mode_disables_cheap_reject() {
    // 513 distinct digests switch big mode on.
    let mut data = Vec::new();
    for i in 0..513u32 {
        data.extend(format!("{:032x}", i).as_bytes());
        data.push(b'\n');
    }
    let ts = TargetSet::build(&data).expect("must parse");
    assert_eq!(ts.size(), 513);
    assert!(ts.is_big());
    // In big mode nothing is cheap-rejected, not even a stranger.
    let stranger = decode_hash_record(b"ffffffffffffffffffffffffffffffff").unwrap();
    assert!(!ts.cheap_reject(&stranger));
    // At 512 the set is still small.
    let mut small = Vec::new();
    for i in 0..512u32 {
        small.extend(format!("{:032x}", i).as_bytes());
        small.push(b'\n');
    }
    let ts_small = TargetSet::build(&small).expect("must parse");
    assert!(!ts_small.is_big());
}

#[test]
fn end_to_end_single_match() {
    let ts = password_target_set();
    let matches = process_batch(&ts, b"hello\npassword\nworld\n");
    assert_eq!(matches.len(), 1);
    assert_eq!(matches[0].line, b"password".to_vec());
    let line = format_match(&matches[0].line, &matches[0].digest);
    assert_eq!(
        line,
        b"password:8846f7eaee8fb117ad06bdd830b7586c\n".to_vec()
    );

    // The dispatcher counts the three candidates and sees the one crack.
    let mut d = Dispatcher::new(ts.size());
    assert!(d.push_candidate(b"hello").is_none());
    assert!(d.push_candidate(b"password").is_none());
    assert!(d.push_candidate(b"world").is_none());
    assert_eq!(d.hashed_so_far(), 3);
    d.note_report(matches.len());
    assert_eq!(d.cracked_so_far(), 1);
    assert!(d.all_found());
}

#[test]
fn blank_lines_are_skipped() {
    let ts = password_target_set();
    // Blank lines inside a batch never match, even though the digest
    // of the empty string could be a target.
    let matches = process_batch(&ts, b"\npassword\n\n\nworld\n");
    assert_eq!(matches.len(), 1);
    assert_eq!(matches[0].line, b"password".to_vec());

    // Blank candidates are not counted as hashed.
    let mut d = Dispatcher::new(1);
    assert!(d.push_candidate(b"").is_none());
    assert_eq!(d.hashed_so_far(), 0);
    assert!(d.push_candidate(b"x").is_none());
    assert_eq!(d.hashed_so_far(), 1);
}

#[test]
fn batching_does_not_change_matches() {
    let mut data = Vec::new();
    for word in ["password", "hunter2", "letmein"] {
        let h = ntlm_hash(word.as_bytes());
        data.extend(ntcrack::codec::encode_hex16(&h));
        data.push(b'\n');
    }
    let ts = TargetSet::build(&data).expect("must parse");

    let stream: &[u8] = b"alpha\npassword\nhunter2\nbeta\nletmein\n";
    let whole: Vec<(Vec<u8>, [u8; 16])> = process_batch(&ts, stream)
        .into_iter()
        .map(|m| (m.line, m.digest))
        .collect();

    // The same candidates cut into three batches, as different pool
    // sizes would see them.
    let mut split: Vec<(Vec<u8>, [u8; 16])> = Vec::new();
    for batch in [&b"alpha\npassword\n"[..], &b"hunter2\n"[..], &b"beta\nletmein\n"[..]] {
        for m in process_batch(&ts, batch) {
            split.push((m.line, m.digest));
        }
    }

    let mut whole_sorted = whole.clone();
    whole_sorted.sort();
    let mut split_sorted = split.clone();
    split_sorted.sort();
    assert_eq!(whole_sorted, split_sorted);
    assert_eq!(whole.len(), 3);
}

#[test]
fn early_exit_emits_only_true_positives() {
    let ts = password_target_set();
    let mut d = Dispatcher::new(ts.size());
    let stream = [&b"password"[..], &b"admin"[..], &b"root"[..]];
    let mut emitted: Vec<(Vec<u8>, [u8; 16])> = Vec::new();
    let mut stopped_early = false;
    for (consumed, cand) in stream.iter().enumerate() {
        d.push_candidate(cand);
        // Process eagerly, as a one-batch-per-candidate run would.
        for m in process_batch(&ts, &[*cand, &b"\n"[..]].concat()) {
            emitted.push((m.line, m.digest));
        }
        d.note_report(emitted.len());
        if d.all_found() {
            stopped_early = consumed + 1 < stream.len();
            break;
        }
    }
    assert!(stopped_early);
    // Everything emitted up to the stop is a true positive.
    for (line, digest) in &emitted {
        assert_eq!(*digest, ntlm_hash(line));
        assert!(ts.contains(digest));
    }
}

#[test]
fn worker_reports_at_threshold_and_flushes() {
    let ts = password_target_set();
    let mut w = Worker::new(1);
    let (flushes, reports) = w.run_batch(&ts, b"password\nnope\n");
    // Threshold one: the single hit is reported at once.
    assert_eq!(reports, vec![1usize]);
    // One short match line stays buffered, nothing reached the flush limit.
    assert!(flushes.is_empty());
    let pending = w.take_pending();
    assert_eq!(
        pending,
        b"password:8846f7eaee8fb117ad06bdd830b7586c\n".to_vec()
    );
    assert!(w.take_pending().is_empty());
}

#[test]
fn worker_flushes_past_buffer_limit() {
    // A candidate long enough that its match line crosses the flush
    // limit on its own.
    let long = vec![b'a'; 9000];
    let h = ntlm_hash(&long);
    let mut data = ntcrack::codec::encode_hex16(&h);
    data.push(b'\n');
    let ts = TargetSet::build(&data).expect("must parse");

    let mut w = Worker::new(10);
    let mut batch = long.clone();
    batch.push(b'\n');
    let (flushes, reports) = w.run_batch(&ts, &batch);
    assert_eq!(flushes.len(), 1);
    let mut expected = long.clone();
    expected.push(b':');
    expected.extend(ntcrack::codec::encode_hex16(&h));
    expected.push(b'\n');
    assert_eq!(flushes[0], expected);
    // Below the report threshold of ten nothing is reported yet.
    assert!(reports.is_empty());
    assert!(w.take_pending().is_empty());
}

#[test]
fn dispatcher_cuts_batches_at_threshold() {
    let mut d = Dispatcher::new(0);
    let long = vec![b'x'; 2000];
    let batch = d
        .push_candidate(&long)
        .expect("a candidate past the threshold closes the batch");
    let mut expected = long.clone();
    expected.push(b'\n');
    assert_eq!(batch, expected);
    // A short candidate stays buffered and comes out with take_rest.
    assert!(d.push_candidate(b"tail").is_none());
    let rest = d.take_rest().expect("buffered bytes remain");
    assert_eq!(rest, b"tail\n".to_vec());
    assert!(d.take_rest().is_none());
    assert_eq!(d.hashed_so_far(), 2);
}

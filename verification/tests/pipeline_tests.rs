use multiparse::gzip::{run_source, SourceError};
use std::io::Write;
use multiparse::modules::csv_dummy::CsvDummy;
use multiparse::pipeline::{
    run_bytes, run_lines, worker_step, writer_concat, WorkerState, BYTES_BLOB_TARGET,
    LINES_BLOB_MAX,
};

fn csv() -> CsvDummy {
    CsvDummy::new(None, None)
}

fn lines_of(strs: &[&str]) -> Vec<Vec<u8>> {
    strs.iter().map(|s| s.as_bytes().to_vec()).collect()
}

/// Single-threaded reference: run line by line, collecting count and the
/// in-order output.
fn reference(p: &CsvDummy, lines: &[Vec<u8>]) -> (usize, Vec<u8>) {
    let mut count = 0usize;
    let mut out: Vec<u8> = Vec::new();
    for l in lines {
        let r = run_lines(p, &vec![l.clone()], 1, &vec![]);
        count += r.emitted;
        out.extend_from_slice(&writer_concat(&r.blobs));
    }
    (count, out)
}

#[test]
fn count_conservation_across_worker_counts() {
    let p = csv();
    let lines = lines_of(&[
        "a,b,c\n", "\n", "1,2\n", "   \n", "x\n", "p,q,r,s\n", "7,8\n", "last,line",
    ]);
    let (expected, _) = reference(&p, &lines);
    assert_eq!(expected, 6);
    for workers in [1usize, 2, 3, 8] {
        for schedule in [vec![], vec![0], vec![1, 0, 2, 5], vec![7, 7, 7]] {
            let r = run_lines(&p, &lines, workers, &schedule);
            assert_eq!(r.emitted, expected);
        }
    }
}

#[test]
fn order_preserved_with_one_worker() {
    let p = csv();
    let lines = lines_of(&["a,b\n", "c,d\r\n", "\n", "e,f"]);
    let (_, expected) = reference(&p, &lines);
    let r = run_lines(&p, &lines, 1, &vec![]);
    let out = writer_concat(&r.blobs);
    assert_eq!(out, expected);
    let s = String::from_utf8(out).unwrap();
    assert_eq!(
        s,
        "{\"cols\":[\"a\",\"b\"],\"raw\":\"a,b\"}\n{\"cols\":[\"c\",\"d\"],\"raw\":\"c,d\"}\n{\"cols\":[\"e\",\"f\"],\"raw\":\"e,f\"}\n"
    );
}

#[test]
fn invalid_utf8_lines_are_dropped_silently() {
    let p = csv();
    let mut lines = lines_of(&["ok,1\n"]);
    lines.push(vec![0xff, 0xfe, b'\n']);
    lines.push(b"ok,2\n".to_vec());
    let r = run_lines(&p, &lines, 1, &vec![]);
    assert_eq!(r.emitted, 2);
}

#[test]
fn flush_exactly_at_record_count_threshold() {
    let p = csv();
    let line = b"x,y\n".to_vec();
    let mut st = WorkerState::new();
    for i in 1..=LINES_BLOB_MAX {
        let flush = worker_step(&p, &mut st, &line);
        if i < LINES_BLOB_MAX {
            assert!(flush.is_none(), "flushed early at record {}", i);
        } else {
            let blob = flush.expect("must flush at the record maximum");
            assert!(blob.len() < BYTES_BLOB_TARGET);
            assert_eq!(st.blob.len(), 0);
            assert_eq!(st.lines_in_blob, 0);
        }
    }
    assert_eq!(st.local_count, LINES_BLOB_MAX);
}

#[test]
fn flush_exactly_at_byte_threshold() {
    let p = csv();
    let long = "a".repeat(2000);
    let line = format!("{},b\n", long).into_bytes();
    // how many bytes one line contributes
    let mut probe = WorkerState::new();
    worker_step(&p, &mut probe, &line);
    let rec_len = probe.blob.len();
    assert!(rec_len > 0);
    let mut st = WorkerState::new();
    let mut steps = 0usize;
    loop {
        steps += 1;
        assert!(steps <= LINES_BLOB_MAX, "byte threshold never reached");
        let before = st.blob.len();
        let flush = worker_step(&p, &mut st, &line);
        if before + rec_len >= BYTES_BLOB_TARGET {
            let blob = flush.expect("must flush once the byte target is reached");
            assert!(blob.len() >= BYTES_BLOB_TARGET);
            assert!(before < BYTES_BLOB_TARGET);
            break;
        } else {
            assert!(flush.is_none(), "flushed before the byte target");
        }
    }
}

#[test]
fn remainder_blob_is_flushed_at_end() {
    let p = csv();
    let lines = lines_of(&["a,b\n"]);
    let r = run_lines(&p, &lines, 4, &vec![2]);
    assert_eq!(r.emitted, 1);
    assert_eq!(r.blobs.len(), 1);
    assert!(!r.blobs[0].is_empty());
}

#[test]
fn run_bytes_splits_lines_like_the_reader() {
    let p = csv();
    let data = b"a,b\nc,d\n\ne,f".to_vec();
    let r = run_bytes(&p, &data, 1, &vec![]);
    assert_eq!(r.emitted, 3);
    let out = String::from_utf8(writer_concat(&r.blobs)).unwrap();
    assert!(out.ends_with("{\"cols\":[\"e\",\"f\"],\"raw\":\"e,f\"}\n"));
}

#[test]
fn compression_transparency_plain_vs_gzip() {
    let p = csv();
    let content = b"a,b,c\n1,2,3\n\nx,y\n".to_vec();
    let mut enc =
        flate2::write::GzEncoder::new(Vec::new(), flate2::Compression::default());
    enc.write_all(&content).unwrap();
    let gz = enc.finish().unwrap();
    assert!(gz.len() >= 2 && gz[0] == 0x1f && gz[1] == 0x8b);
    let plain_run = run_source(&p, &content, 1, &vec![]).unwrap();
    let gz_run = run_source(&p, &gz, 1, &vec![]).unwrap();
    assert_eq!(plain_run.emitted, gz_run.emitted);
    assert_eq!(writer_concat(&plain_run.blobs), writer_concat(&gz_run.blobs));
}

#[test]
fn corrupt_gzip_stream_is_a_fatal_source_error() {
    let p = csv();
    let raw = vec![0x1fu8, 0x8b, 0x13, 0x37, 0x00];
    let r = run_source(&p, &raw, 1, &vec![]);
    match r {
        Err(e) => assert_eq!(e, SourceError::Corrupt),
        Ok(_) => panic!("corrupt stream must not run"),
    }
}

#[test]
fn plain_stream_without_magic_is_taken_verbatim() {
    let p = csv();
    let raw = b"q,w\n".to_vec();
    let r = run_source(&p, &raw, 2, &vec![0, 1]).unwrap();
    assert_eq!(r.emitted, 1);
}

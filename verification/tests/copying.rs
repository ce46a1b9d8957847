//! Copying one file, and estimating how long it all takes.

use kevat::copy::{Copier, CopyAnswer, CopyAsk, CHECKPOINT_EVERY};
use kevat::engine::Progress;
use kevat::eta::EtaModel;
use kevat::journal::{Record, ResumeState};
use kevat::path::RelPath;
use kevat::scan::{Entry, Manifest};

struct Copied {
    part: Vec<u8>,
    /// Offset and span of every checkpoint, with the bytes flushed before it.
    points: Vec<(u64, u64, u64)>,
    hashes: Vec<String>,
    end: CopyAsk,
}

/// Copies zeroes without holding them: only their number matters here.
fn copy(size: u64, chunk: usize, resume: u64, stop_after: Option<usize>) -> Copied {
    let mut c = Copier::begin("f".to_string(), resume, size, 9);
    let mut part: Vec<u8> = vec![0; resume as usize];
    let mut flushed = 0u64;
    let mut at = 0u64;
    let mut n = 0usize;
    let mut points = Vec::new();
    let mut hashes = Vec::new();
    loop {
        let a = match c.ask() {
            CopyAsk::Receive => {
                if stop_after == Some(n) {
                    CopyAnswer::Cancelled
                } else if at == size {
                    CopyAnswer::End(77)
                } else {
                    let len = (chunk as u64).min(size - at) as usize;
                    at += len as u64;
                    n += 1;
                    CopyAnswer::Chunk(vec![(at % 251) as u8; len])
                }
            }
            CopyAsk::Write(from) => {
                let b = c.chunk()[from..].to_vec();
                part.extend(b);
                CopyAnswer::Done
            }
            CopyAsk::Sync => {
                flushed = part.len() as u64;
                CopyAnswer::Done
            }
            CopyAsk::Record(Record::Checkpoint { rel, off, span, span_hash, src_size, src_mtime }) => {
                assert_eq!((rel.as_str(), src_size, src_mtime), ("f", size, 9));
                points.push((off, span, flushed));
                hashes.push(span_hash);
                CopyAnswer::Done
            }
            CopyAsk::Record(_) => unreachable!(),
            end => return Copied { part, points, hashes, end },
        };
        c.answer(a);
    }
}

#[test]
fn a_checkpoint_every_so_many_bytes_behind_a_flush() {
    let size = 2 * CHECKPOINT_EVERY + 5;
    let r = copy(size, 8_388_608, 0, None);
    assert_eq!(r.part.len() as u64, size);
    assert_eq!(r.points.len(), 2);
    let mut before = 0;
    for (off, span, flushed) in &r.points {
        assert_eq!(off - span, before);
        assert!(flushed >= off);
        before = *off;
    }
    assert!(matches!(r.end, CopyAsk::Finished(77, n) if n == size));
}

#[test]
fn checkpoints_hash_what_was_written() {
    let r = copy(CHECKPOINT_EVERY + 1, 8_388_608, 0, None);
    let (off, span, _) = r.points[0];
    let want = xxhash_rust::xxh3::xxh3_128(&r.part[(off - span) as usize..off as usize]);
    assert_eq!(r.hashes[0], format!("{want:032x}"));
}

#[test]
fn a_stop_is_recorded_where_it_happened() {
    let r = copy(100, 10, 0, Some(3));
    assert_eq!(r.part.len(), 30);
    assert_eq!(r.points, [(30, 30, 30)]);
    assert!(matches!(r.end, CopyAsk::Stopped(30)));
    // Nothing new, nothing to record.
    let r = copy(100, 10, 0, Some(0));
    assert!(r.points.is_empty());
    assert!(matches!(r.end, CopyAsk::Stopped(0)));
}

#[test]
fn a_resumed_copy_writes_only_the_rest() {
    let r = copy(100, 30, 45, None);
    assert_eq!(r.part.len(), 100);
    assert!(matches!(r.end, CopyAsk::Finished(77, 55)));
}

/// The checkpoints of one attempt, taken into what the journal says.
fn take_in(st: &mut ResumeState, r: &Copied, size: u64) {
    for ((off, span, _), span_hash) in r.points.iter().zip(&r.hashes) {
        st.absorb(Some(Record::Checkpoint {
            rel: "f".to_string(),
            off: *off,
            span: *span,
            span_hash: span_hash.clone(),
            src_size: size,
            src_mtime: 9,
        }));
    }
}

#[test]
fn a_chain_grows_over_every_interruption() {
    let size = 100;
    let mut st = ResumeState::empty();
    let mut at = 0;
    for (stop, want) in [(3, 30), (5, 50), (5, 50), (9, 90)] {
        let r = copy(size, 10, at, Some(stop));
        take_in(&mut st, &r, size);
        let chain = &st.partial.as_ref().unwrap().chain;
        at = chain.last().unwrap().off;
        assert_eq!(at, want);
        // What is on the chain is what stands in the file, from its first byte on.
        let mut end = 0;
        for c in chain {
            assert_eq!(c.off - c.span, end);
            let bytes: Vec<u8> = (end..c.off).map(|i| ((i / 10 + 1) * 10 % 251) as u8).collect();
            let hash = xxhash_rust::xxh3::xxh3_128(&bytes);
            assert_eq!(c.span_hash, format!("{hash:032x}"));
            end = c.off;
        }
    }
    let chain = st.partial.unwrap().chain;
    assert_eq!(chain.iter().map(|c| (c.off, c.span)).collect::<Vec<_>>(), [(30, 30), (50, 20), (90, 40)]);
}

#[test]
fn a_copy_from_the_start_drops_an_older_chain() {
    let mut st = ResumeState::empty();
    take_in(&mut st, &copy(100, 10, 0, Some(4)), 100);
    take_in(&mut st, &copy(100, 10, 0, Some(2)), 100);
    let chain = st.partial.unwrap().chain;
    assert_eq!(chain.iter().map(|c| (c.off, c.span)).collect::<Vec<_>>(), [(20, 20)]);
}

#[test]
fn only_the_last_span_of_a_stopped_copy_is_short() {
    let size = 21 * 8_388_608;
    let r = copy(size, 8_388_608, 0, Some(12));
    let spans: Vec<u64> = r.points.iter().map(|p| p.1).collect();
    assert_eq!(spans, [CHECKPOINT_EVERY, 4 * 8_388_608]);
    let at = r.points[1].0;
    let r = copy(size, 8_388_608, at, None);
    let spans: Vec<u64> = r.points.iter().map(|p| p.1).collect();
    assert_eq!(spans, [CHECKPOINT_EVERY]);
}

#[test]
fn a_failure_ends_the_copy() {
    let mut c = Copier::begin("f".to_string(), 0, 5, 9);
    c.answer(CopyAnswer::Chunk(vec![1, 2]));
    c.answer(CopyAnswer::Failed("no space".to_string()));
    assert!(matches!(c.ask(), CopyAsk::Failed(e) if e == "no space"));
    c.answer(CopyAnswer::Done);
    assert!(matches!(c.ask(), CopyAsk::Failed(_)));
}

fn job(sizes: &[u64]) -> Manifest {
    let mut m = Manifest::empty();
    for (i, s) in sizes.iter().enumerate() {
        let rel = RelPath::root().join(format!("{i}").as_bytes());
        m.files.push(Entry { rel, size: *s, mtime: 0, mtime_ns: 0 });
    }
    m
}

#[test]
fn small_files_and_large_ones_are_timed_apart() {
    let big = 10_000_000;
    let mut e = EtaModel::new(&job(&[10, 20, big, big, 1_048_576]));
    assert_eq!(e.left(), (2, 2 * big + 1_048_576));
    e.start_file(10);
    e.completed();
    assert_eq!(e.left(), (1, 2 * big + 1_048_576));
    e.start_file(big);
    e.carried(4_000_000);
    e.wrote(1_000_000);
    assert_eq!(e.left(), (1, big + 1_048_576 + 5_000_000));
    let s = e.sample();
    assert_eq!((s.small, s.big), (Some(1), Some(1_000_000)));
    let s = e.sample();
    assert_eq!((s.small, s.big), (None, Some(0)));
    assert!(EtaModel::due(1_000_000_000) && !EtaModel::due(999_999_999));
}

#[test]
fn no_total_while_a_part_is_unknown() {
    let e = EtaModel::new(&job(&[10, 5_000_000]));
    match e.estimate(Some(3), None) {
        Progress::Eta { seconds, small_secs, big_secs, .. } => {
            assert_eq!((seconds, small_secs, big_secs), (None, Some(3), None));
        }
        _ => unreachable!(),
    }
    match e.estimate(Some(3), Some(4)) {
        Progress::Eta { seconds, .. } => assert_eq!(seconds, Some(7)),
        _ => unreachable!(),
    }
    let none = EtaModel::new(&job(&[]));
    match none.estimate(None, None) {
        Progress::Eta { seconds, .. } => assert_eq!(seconds, Some(0)),
        _ => unreachable!(),
    }
}

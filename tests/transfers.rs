use s3clix::delete::DeletePlan;
use s3clix::retry::{Attempt, RetryState, RetryStep};
use s3clix::s3::{FileList, S3Error};
use s3clix::upload::UploadSession;

fn run(tries: usize, attempts: Vec<Attempt<Result<u32, String>>>) -> (RetryStep<Result<u32, String>>, usize) {
    let mut s = RetryState::new(tries);
    let mut n = 0;
    for a in attempts {
        n += 1;
        match s.step(a) {
            RetryStep::Retry => {}
            other => return (other, n),
        }
    }
    (RetryStep::Retry, n)
}

#[test]
fn always_slow_call_gives_up_after_three_attempts() {
    let mut s = RetryState::new(2);
    let mut attempts = 0;
    loop {
        attempts += 1;
        match s.step::<Result<(), String>>(Attempt::TimedOut) {
            RetryStep::Retry => continue,
            RetryStep::Exhausted => break,
            RetryStep::Done(_) => panic!("no call completed"),
        }
    }
    assert_eq!(attempts, 3);
}

#[test]
fn success_after_budgeted_timeouts() {
    let (step, n) = run(2, vec![Attempt::TimedOut, Attempt::TimedOut, Attempt::Finished(Ok(7))]);
    assert!(matches!(step, RetryStep::Done(Ok(7))));
    assert_eq!(n, 3);
}

#[test]
fn one_timeout_too_many_is_exhausted() {
    let (step, n) = run(
        2,
        vec![Attempt::TimedOut, Attempt::TimedOut, Attempt::TimedOut, Attempt::Finished(Ok(7))],
    );
    assert!(matches!(step, RetryStep::Exhausted));
    assert_eq!(n, 3);
}

#[test]
fn completed_failure_is_not_retried() {
    let (step, n) = run(2, vec![Attempt::Finished(Err("denied".to_string())), Attempt::Finished(Ok(1))]);
    assert!(matches!(step, RetryStep::Done(Err(ref e)) if e == "denied"));
    assert_eq!(n, 1);
}

#[test]
fn zero_pool_is_refused() {
    assert!(matches!(UploadSession::new(0), Err(S3Error::InvalidPoolSize)));
}

#[test]
fn upload_parts_cover_stream() {
    let data: Vec<u8> = (0u8..10).collect();
    let mut s = UploadSession::new(4).unwrap();
    let mut parts = Vec::new();
    parts.extend(s.push(data[0..3].to_vec()).unwrap());
    parts.extend(s.push(data[3..9].to_vec()).unwrap());
    parts.extend(s.push(data[9..10].to_vec()).unwrap());
    if let Some(p) = s.finish().unwrap() {
        parts.push(p);
    }
    assert_eq!(parts.len(), 3);
    assert_eq!(parts.iter().map(|p| p.part_number).collect::<Vec<_>>(), vec![1, 2, 3]);
    assert_eq!(parts.iter().map(|p| p.bytes.len()).collect::<Vec<_>>(), vec![4, 4, 2]);
    let joined: Vec<u8> = parts.iter().flat_map(|p| p.bytes.clone()).collect();
    assert_eq!(joined, data);
}

#[test]
fn exact_fill_leaves_no_last_part() {
    let mut s = UploadSession::new(4).unwrap();
    let parts = s.push(vec![1; 8]).unwrap();
    assert_eq!(parts.len(), 2);
    assert!(s.finish().unwrap().is_none());
}

#[test]
fn empty_stream_has_no_parts() {
    let mut s = UploadSession::new(4).unwrap();
    assert!(s.finish().unwrap().is_none());
    assert_eq!(s.completion().map(|t| t.len()), Some(0));
}

#[test]
fn completion_lists_tags_in_order() {
    let mut s = UploadSession::new(2).unwrap();
    let parts = s.push(vec![1, 2, 3]).unwrap();
    assert_eq!(parts.len(), 1);
    assert!(s.record_tag("etag-1".to_string()));
    assert!(!s.record_tag("extra".to_string()));
    let last = s.finish().unwrap().unwrap();
    assert_eq!(last.part_number, 2);
    assert_eq!(last.bytes, vec![3]);
    assert!(s.completion().is_none());
    assert!(s.record_tag("etag-2".to_string()));
    let tags = s.completion().unwrap();
    assert_eq!(tags.len(), 2);
    assert_eq!(tags[0].part_number, 1);
    assert_eq!(tags[1].part_number, 2);
    assert_eq!(tags[1].etag, "etag-2");
}

#[test]
fn failed_upload_aborts_once_and_never_completes() {
    let mut s = UploadSession::new(2).unwrap();
    let _ = s.push(vec![1, 2]).unwrap();
    assert!(s.fail());
    assert!(!s.fail());
    let _ = s.finish();
    assert!(s.completion().is_none());
}

fn entry(path: &str, folder: bool) -> FileList {
    FileList { path: path.to_string(), name: String::new(), size: 1, folder, cdn_url: None }
}

#[test]
fn recursive_delete_walks_every_folder() {
    let mut plan = DeletePlan::new("a/");
    assert_eq!(plan.next_folder().as_deref(), Some("a/"));
    plan.record_listing(&vec![entry("a/b/", true), entry("a/x", false)]);
    assert!(!plan.is_done());
    assert_eq!(plan.next_folder().as_deref(), Some("a/b/"));
    plan.record_listing(&vec![entry("a/b/c/", true)]);
    assert_eq!(plan.next_folder().as_deref(), Some("a/b/c/"));
    plan.record_listing(&vec![entry("a/b/c/deep.txt", false)]);
    assert_eq!(plan.next_folder(), None);
    assert!(plan.is_done());
    assert_eq!(
        plan.deletions(),
        vec![
            "a/.placeholder",
            "a/b/.placeholder",
            "a/x",
            "a/b/c/.placeholder",
            "a/b/c/deep.txt",
            "a/",
            "a/b/",
            "a/b/c/",
        ]
    );
}

#[test]
fn chunk_larger_than_two_parts_is_cut_fully() {
    let mut s = UploadSession::new(4).unwrap();
    let mut parts = s.push(b"abcdefgh".to_vec()).unwrap();
    assert_eq!(parts.len(), 2);
    parts.extend(s.push(b"ijk".to_vec()).unwrap());
    parts.extend(s.finish().unwrap());
    let got: Vec<(u32, Vec<u8>)> = parts.into_iter().map(|p| (p.part_number, p.bytes)).collect();
    assert_eq!(
        got,
        vec![(1, b"abcd".to_vec()), (2, b"efgh".to_vec()), (3, b"ijk".to_vec())]
    );
}

#[test]
fn oversized_chunk_leaves_short_buffer() {
    let mut s = UploadSession::new(3).unwrap();
    let parts = s.push(vec![7; 10]).unwrap();
    assert_eq!(parts.len(), 3);
    let last = s.finish().unwrap().unwrap();
    assert_eq!(last.part_number, 4);
    assert_eq!(last.bytes, vec![7]);
}

//! Tests for the engine: configuration validation, the queue, the worker
//! state machine, and the whole run's aggregate against a per-file
//! reference count.

use haystack::manager::scan;
use haystack::{process, Error, FileEntry, Job, JobQueue, Manager, Params, Worker};

fn params_with(needle: &str, pool_size: usize, buf_size: usize, case_insensitive: bool) -> Params {
    Params {
        dir: String::from("."),
        needle: String::from(needle),
        snippets: false,
        whitelist: Vec::new(),
        case_insensitive,
        benchmark: false,
        max_depth: None,
        buf_size,
        pool_size,
    }
}

fn entry(path: &str, content: &str) -> FileEntry {
    FileEntry { path: String::from(path), content: content.as_bytes().to_vec() }
}

#[test]
fn empty_term_is_refused() {
    let params = params_with("", 4, 8192, false);
    match Manager::new(&params) {
        Err(Error::InvalidConfiguration) => {}
        Ok(_) => panic!("an empty term must fail construction"),
    }
}

#[test]
fn empty_term_refused_before_any_scan() {
    let params = params_with("", 4, 8192, false);
    let entries = vec![entry("a.txt", "needle needle")];
    assert_eq!(Err(Error::InvalidConfiguration), haystack::run(&params, &entries));
}

#[test]
fn zero_pool_size_is_refused() {
    let params = params_with("abc", 0, 8192, false);
    match Manager::new(&params) {
        Err(Error::InvalidConfiguration) => {}
        Ok(_) => panic!("a pool of zero workers must fail construction"),
    }
}

#[test]
fn run_counts_across_files() {
    let params = params_with("abc", 3, 7, false);
    let entries = vec![
        entry("one.txt", "abc01234abc56789abcjab"),
        entry("two.txt", "no matches here"),
        entry("three.txt", "ABCabcABC"),
    ];
    assert_eq!(Ok(4), haystack::run(&params, &entries));
}

#[test]
fn run_total_equals_sum_of_per_file_counts() {
    let files = [
        ("a.log", "abc01234abc56789abcjab"),
        ("b.log", "xxabyyabcz"),
        ("c.log", ""),
        ("d.log", "abcabcabc"),
    ];
    let entries: Vec<FileEntry> = files.iter().map(|(p, c)| entry(p, c)).collect();
    let mut reference: u64 = 0;
    for (_, content) in files.iter() {
        reference += process("abc", content.as_bytes(), 5, false);
    }
    for pool_size in 1..=4 {
        let params = params_with("abc", pool_size, 5, false);
        assert_eq!(
            Ok(reference),
            haystack::run(&params, &entries),
            "the aggregate must match a single-threaded reference scan"
        );
    }
}

#[test]
fn run_with_zero_buffer_finds_nothing() {
    let params = params_with("abc", 2, 0, false);
    let entries = vec![entry("a.txt", "abcabc")];
    assert_eq!(Ok(0), haystack::run(&params, &entries));
}

#[test]
fn run_respects_whitelist() {
    let mut params = params_with("abc", 2, 64, false);
    params.whitelist = vec![String::from("txt")];
    let entries = vec![
        entry("one.txt", "abc"),
        entry("two.md", "abc"),
        entry("three.bin", "abc"),
        entry("four.TXT", "abcabc"),
    ];
    assert_eq!(Ok(3), haystack::run(&params, &entries));
}

#[test]
fn run_case_insensitive() {
    let params = params_with("abc", 2, 10, true);
    let entries = vec![entry("a.txt", "ABC01234aBc56789abcjab")];
    assert_eq!(Ok(3), haystack::run(&params, &entries));
}

#[test]
fn manager_lifecycle_aggregates() {
    let params = params_with("ab", 2, 4, false);
    let mut manager = Manager::new(&params).unwrap_or_else(|_| panic!("valid configuration"));
    assert!(manager.spawn());
    let entries = vec![entry("x.txt", "ababab"), entry("y.txt", "ab")];
    assert!(scan(&entries, &mut manager).is_ok());
    assert_eq!(4, manager.stop());
}

#[test]
fn backpressure_bounds_the_queue() {
    // far more files than the queue's capacity: the producer must pause
    // and let workers catch up rather than grow the queue
    let mut entries: Vec<FileEntry> = Vec::new();
    for i in 0..3000 {
        entries.push(entry(&format!("f{}.txt", i), "needle"));
    }
    let params = params_with("needle", 2, 3, false);
    assert_eq!(Ok(3000), haystack::run(&params, &entries));
}

#[test]
fn run_with_no_files_finds_nothing() {
    let params = params_with("abc", 4, 8192, false);
    let entries: Vec<FileEntry> = Vec::new();
    assert_eq!(Ok(0), haystack::run(&params, &entries));
}

#[test]
fn stop_without_work_returns_zero() {
    let params = params_with("abc", 3, 8192, false);
    let mut manager = Manager::new(&params).unwrap_or_else(|_| panic!("valid configuration"));
    assert!(manager.spawn());
    assert_eq!(0, manager.stop());
}

#[test]
fn queue_is_fifo() {
    let mut q = JobQueue::new(4);
    q.push_work(entry("first.txt", "1"));
    q.push_work(entry("second.txt", "2"));
    q.push_stop();
    match q.pop() {
        Some(Job::Work(e)) => assert_eq!("first.txt", e.path),
        _ => panic!("expected the first work job"),
    }
    match q.pop() {
        Some(Job::Work(e)) => assert_eq!("second.txt", e.path),
        _ => panic!("expected the second work job"),
    }
    match q.pop() {
        Some(Job::Stop) => {}
        _ => panic!("expected the sentinel"),
    }
    assert!(q.pop().is_none());
}

#[test]
fn queue_reports_full() {
    let mut q = JobQueue::new(2);
    assert!(!q.is_full());
    q.push_work(entry("a.txt", ""));
    assert!(!q.is_full());
    q.push_work(entry("b.txt", ""));
    assert!(q.is_full());
    // sentinels are accepted even when the work bound is reached
    q.push_stop();
    assert_eq!(3, q.len());
    q.pop();
    assert!(!q.is_full());
}

#[test]
fn worker_accumulates_and_reports() {
    let mut w = Worker::new("ab".as_bytes(), 4, false);
    w.start();
    let line = w.run_job(&entry("dir/a.txt", "abab"));
    assert_eq!(Some(Vec::from("2x in dir/a.txt\n".as_bytes())), line);
    let none = w.run_job(&entry("dir/b.txt", "zzz"));
    assert!(none.is_none());
    w.drain();
    assert_eq!(2, w.report());
}

#[test]
fn error_is_invalid_configuration() {
    let e = Error::InvalidConfiguration;
    assert_eq!(Error::InvalidConfiguration, e);
}

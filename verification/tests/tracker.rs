use agent_lsp::job_tracker::{JobTracker, MAX_CONCURRENT_JOBS_PER_FILE};

#[test]
fn test_register_job() {
    let mut tracker = JobTracker::new();
    let uri = "file:///test.rs";

    let result = tracker.register_job(uri, "job1", 10, "fn foo()".to_string());
    assert!(result.is_ok());
    assert_eq!(tracker.active_job_count(uri), 1);
}

#[test]
fn test_max_concurrent_jobs() {
    let mut tracker = JobTracker::new();
    let uri = "file:///test.rs";

    for i in 0..10 {
        let result = tracker.register_job(uri, &format!("job{}", i), i * 10, "fn foo()".to_string());
        assert!(result.is_ok());
    }

    assert_eq!(tracker.active_job_count(uri), 10);

    let result = tracker.register_job(uri, "job11", 100, "fn bar()".to_string());
    assert!(result.is_err());
    assert!(result.unwrap_err().contains("Maximum concurrent implementations"));
}

#[test]
fn test_get_current_line() {
    let mut tracker = JobTracker::new();
    let uri = "file:///test.rs";

    tracker.register_job(uri, "job1", 10, "fn foo()".to_string()).unwrap();

    assert_eq!(tracker.get_current_line("job1"), Some(10));
    assert_eq!(tracker.get_current_line("nonexistent"), None);
}

#[test]
fn test_adjust_lines_for_edit() {
    let mut tracker = JobTracker::new();
    let uri = "file:///test.rs";

    tracker.register_job(uri, "job1", 10, "fn foo()".to_string()).unwrap();
    tracker.register_job(uri, "job2", 20, "fn bar()".to_string()).unwrap();
    tracker.register_job(uri, "job3", 30, "fn baz()".to_string()).unwrap();

    tracker.adjust_lines_for_edit(uri, 10, 15, 5, "job1");

    assert_eq!(tracker.get_current_line("job1"), Some(10));
    assert_eq!(tracker.get_current_line("job2"), Some(25));
    assert_eq!(tracker.get_current_line("job3"), Some(35));
}

#[test]
fn test_adjust_lines_negative_delta() {
    let mut tracker = JobTracker::new();
    let uri = "file:///test.rs";

    tracker.register_job(uri, "job1", 10, "fn foo()".to_string()).unwrap();
    tracker.register_job(uri, "job2", 30, "fn bar()".to_string()).unwrap();

    tracker.adjust_lines_for_edit(uri, 10, 20, -5, "job1");

    assert_eq!(tracker.get_current_line("job2"), Some(25));
}

#[test]
fn test_complete_job() {
    let mut tracker = JobTracker::new();
    let uri = "file:///test.rs";

    tracker.register_job(uri, "job1", 10, "fn foo()".to_string()).unwrap();
    tracker.register_job(uri, "job2", 20, "fn bar()".to_string()).unwrap();

    assert_eq!(tracker.active_job_count(uri), 2);

    tracker.complete_job(uri, "job1");
    assert_eq!(tracker.active_job_count(uri), 1);
    assert_eq!(tracker.get_current_line("job1"), None);
    assert_eq!(tracker.get_current_line("job2"), Some(20));
}

#[test]
fn test_get_active_jobs() {
    let mut tracker = JobTracker::new();
    let uri = "file:///test.rs";

    tracker.register_job(uri, "job1", 10, "fn foo()".to_string()).unwrap();
    tracker.register_job(uri, "job2", 20, "fn bar()".to_string()).unwrap();

    let jobs = tracker.get_active_jobs(uri);
    assert_eq!(jobs.len(), 2);

    let job_ids: Vec<String> = jobs.iter().map(|(id, _)| id.clone()).collect();
    assert!(job_ids.contains(&"job1".to_string()));
    assert!(job_ids.contains(&"job2".to_string()));
}

#[test]
fn test_multiple_files() {
    let mut tracker = JobTracker::new();
    let uri1 = "file:///test1.rs";
    let uri2 = "file:///test2.rs";

    tracker.register_job(uri1, "job1", 10, "fn foo()".to_string()).unwrap();
    tracker.register_job(uri2, "job2", 20, "fn bar()".to_string()).unwrap();

    assert_eq!(tracker.active_job_count(uri1), 1);
    assert_eq!(tracker.active_job_count(uri2), 1);

    tracker.complete_job(uri1, "job1");
    assert_eq!(tracker.active_job_count(uri1), 0);
    assert_eq!(tracker.active_job_count(uri2), 1);
}

#[test]
fn eleventh_job_is_refused_and_nothing_changes() {
    let mut tracker = JobTracker::default();
    let uri = "file:///full.rs";
    assert_eq!(MAX_CONCURRENT_JOBS_PER_FILE, 10);
    for i in 0..10u32 {
        tracker.register_job(uri, &format!("job{}", i), i, format!("fn f{}()", i)).unwrap();
    }
    let before = tracker.get_active_jobs(uri);
    let refused = tracker.register_job(uri, "job10", 99, "fn late()".to_string());
    assert_eq!(
        refused,
        Err("Maximum concurrent implementations (10) reached for this file. Please wait."
            .to_string())
    );
    assert_eq!(tracker.active_job_count(uri), 10);
    assert_eq!(tracker.get_active_jobs(uri), before);
    assert_eq!(tracker.get_current_line("job10"), None);
    let again = tracker.register_job(uri, "job3", 99, "fn again()".to_string());
    assert!(again.is_err());
    assert_eq!(tracker.get_current_line("job3"), Some(3));
    assert!(tracker.register_job("file:///other.rs", "job10", 1, "fn o()".to_string()).is_ok());
    tracker.complete_job(uri, "job0");
    assert!(tracker.register_job(uri, "job10", 99, "fn late()".to_string()).is_ok());
    assert_eq!(tracker.active_job_count(uri), 10);
}

#[test]
fn registering_again_replaces_the_job() {
    let mut tracker = JobTracker::new();
    let uri = "file:///a.rs";
    tracker.register_job(uri, "a", 1, "fn a()".to_string()).unwrap();
    tracker.register_job(uri, "b", 2, "fn b()".to_string()).unwrap();
    tracker.adjust_lines_for_edit(uri, 0, 0, 4, "b");
    assert_eq!(tracker.get_current_line("a"), Some(5));
    tracker.register_job(uri, "a", 7, "fn a2()".to_string()).unwrap();
    assert_eq!(tracker.active_job_count(uri), 2);
    assert_eq!(tracker.get_active_jobs(uri), vec![("a".to_string(), 7), ("b".to_string(), 2)]);
    assert_eq!(tracker.get_function_signature("a"), Some("fn a2()".to_string()));
    assert_eq!(tracker.get_function_signature("b"), Some("fn b()".to_string()));
    assert_eq!(tracker.get_function_signature("c"), None);
}

#[test]
fn jobs_inside_or_above_an_edit_stay() {
    let mut tracker = JobTracker::new();
    let uri = "file:///a.rs";
    for (id, line) in [("above", 2u32), ("start", 10), ("inside", 12), ("end", 15), ("below", 16)] {
        tracker.register_job(uri, id, line, "fn f()".to_string()).unwrap();
    }
    tracker.register_job("file:///b.rs", "elsewhere", 40, "fn g()".to_string()).unwrap();
    tracker.adjust_lines_for_edit(uri, 10, 15, 3, "start");
    assert_eq!(
        tracker.get_active_jobs(uri),
        vec![
            ("above".to_string(), 2),
            ("start".to_string(), 10),
            ("inside".to_string(), 12),
            ("end".to_string(), 15),
            ("below".to_string(), 19),
        ]
    );
    assert_eq!(tracker.get_current_line("elsewhere"), Some(40));
    tracker.adjust_lines_for_edit("file:///none.rs", 0, 0, 3, "x");
    assert_eq!(tracker.get_current_line("elsewhere"), Some(40));
}

#[test]
fn moved_lines_stay_within_the_line_numbers() {
    let mut tracker = JobTracker::new();
    let uri = "file:///a.rs";
    tracker.register_job(uri, "low", 3, "fn f()".to_string()).unwrap();
    tracker.register_job(uri, "high", u32::MAX - 1, "fn g()".to_string()).unwrap();
    tracker.register_job(uri, "self", 9, "fn h()".to_string()).unwrap();
    tracker.adjust_lines_for_edit(uri, 0, 1, -5, "self");
    assert_eq!(tracker.get_current_line("low"), Some(0));
    assert_eq!(tracker.get_current_line("high"), Some(u32::MAX - 6));
    assert_eq!(tracker.get_current_line("self"), Some(9));
    tracker.adjust_lines_for_edit(uri, 0, 1, i32::MAX, "self");
    assert_eq!(tracker.get_current_line("high"), Some(u32::MAX));
    tracker.adjust_lines_for_edit(uri, 0, 1, i32::MIN, "nobody");
    assert_eq!(tracker.get_current_line("high"), Some(u32::MAX - (1u32 << 31)));
    assert_eq!(tracker.get_current_line("self"), Some(0));
}

#[test]
fn completing_the_last_job_forgets_the_document() {
    let mut tracker = JobTracker::new();
    let uri = "file:///a.rs";
    tracker.register_job(uri, "a", 1, "fn a()".to_string()).unwrap();
    tracker.complete_job(uri, "missing");
    assert_eq!(tracker.active_job_count(uri), 1);
    tracker.complete_job("file:///b.rs", "a");
    assert_eq!(tracker.active_job_count(uri), 1);
    tracker.complete_job(uri, "a");
    assert_eq!(tracker.active_job_count(uri), 0);
    assert!(tracker.get_active_jobs(uri).is_empty());
    tracker.complete_job(uri, "a");
    assert_eq!(tracker.active_job_count(uri), 0);
}

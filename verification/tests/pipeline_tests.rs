use m3u8_download::error::DownloadError;
use m3u8_download::format::detect_video_format;
use m3u8_download::format::output_file_name;
use m3u8_download::manifest::parse_manifest;
use m3u8_download::pipeline::Action;
use m3u8_download::pipeline::Pipeline;
use m3u8_download::retry::RetryDecision;
use m3u8_download::retry::RetryPolicy;

/// Runs a whole download in memory. `payloads[i]` is what the fetch of
/// segment `i` returns; `pick` chooses which of the running tasks finishes
/// next. Returns the merged stream and the highest number of tasks that
/// ran at once.
fn simulate(
    payloads: &[Vec<u8>],
    limit: usize,
    pick: &mut dyn FnMut(&[usize]) -> usize,
) -> (Vec<u8>, usize, Vec<usize>) {
    let mut pipeline: Pipeline<Vec<u8>> = Pipeline::new(payloads.len(), limit);
    let mut running: Vec<usize> = Vec::new();
    let mut peak = 0;
    let mut finished = Vec::new();
    loop {
        match pipeline.next_action() {
            Action::Dispatch { index } => {
                running.push(index);
                peak = peak.max(running.len());
                assert_eq!(pipeline.in_flight_count(), running.len());
                assert!(running.len() <= limit);
            }
            Action::Await => {
                assert!(!running.is_empty());
                let at = pick(&running);
                let index = running.remove(at);
                finished.push(index);
                assert!(pipeline.record_stored(index, payloads[index].clone()));
                assert_eq!(pipeline.in_flight_count(), running.len());
            }
            Action::Merge => break,
            Action::Abort => panic!("no task failed"),
        }
    }
    assert!(running.is_empty());
    assert!(pipeline.is_complete());
    let order = pipeline.into_merge_order().unwrap();
    (order.concat(), peak, finished)
}

fn numbered_payloads(count: usize) -> Vec<Vec<u8>> {
    (0..count).map(|i| format!("<{}>", i).into_bytes()).collect()
}

fn in_manifest_order(payloads: &[Vec<u8>]) -> Vec<u8> {
    payloads.concat()
}

#[test]
fn happy_path_assembles_abc_and_names_it_output_ts() {
    let references = parse_manifest("seg0.ts\nseg1.ts\nseg2.ts\n", "http://x/live/").unwrap();
    assert_eq!(references.len(), 3);
    let payloads = vec![b"A".to_vec(), b"B".to_vec(), b"C".to_vec()];
    let (merged, _, _) = simulate(&payloads, 16, &mut |running| running.len() - 1);
    assert_eq!(merged, b"ABC");
    // "ABC" alone is shorter than the window the sniffer reads.
    assert!(matches!(
        detect_video_format(&merged),
        Err(DownloadError::HeaderTooShort { available: 3 })
    ));
}

#[test]
fn happy_path_with_longer_segments_is_saved_as_ts() {
    let payloads = vec![b"AAAAAA".to_vec(), b"BBBBBB".to_vec(), b"CCCCCC".to_vec()];
    let (merged, _, _) = simulate(&payloads, 16, &mut |_| 0);
    assert_eq!(merged, b"AAAAAABBBBBBCCCCCC");
    let format = detect_video_format(&merged).unwrap();
    assert_eq!(output_file_name("output", format), "output.ts");
}

#[test]
fn merge_order_is_manifest_order_for_every_completion_order() {
    let payloads = numbered_payloads(4);
    let expected = in_manifest_order(&payloads);
    let mut orders_seen = Vec::new();
    // Every way of choosing the next task to finish, for up to 4 choices.
    for code in 0..(4 * 3 * 2) {
        let mut rest = code;
        let mut pick = |running: &[usize]| {
            let at = rest % running.len();
            rest /= running.len();
            at
        };
        let (merged, peak, finished) = simulate(&payloads, 4, &mut pick);
        assert_eq!(merged, expected);
        assert_eq!(peak, 4);
        if !orders_seen.contains(&finished) {
            orders_seen.push(finished);
        }
    }
    assert_eq!(orders_seen.len(), 24);
}

#[test]
fn reverse_completion_does_not_reverse_the_stream() {
    let payloads = numbered_payloads(10);
    let (merged, _, finished) = simulate(&payloads, 10, &mut |running| running.len() - 1);
    assert_eq!(finished, vec![9, 8, 7, 6, 5, 4, 3, 2, 1, 0]);
    assert_eq!(merged, b"<0><1><2><3><4><5><6><7><8><9>");
}

#[test]
fn never_more_tasks_than_the_limit() {
    let payloads = numbered_payloads(25);
    let expected = in_manifest_order(&payloads);
    for limit in 1..=30usize {
        let mut turn = 0usize;
        let mut pick = |running: &[usize]| {
            turn += 7;
            turn % running.len()
        };
        let (merged, peak, _) = simulate(&payloads, limit, &mut pick);
        assert_eq!(peak, limit.min(25));
        assert_eq!(merged, expected);
    }
}

#[test]
fn limit_of_one_fetches_one_by_one() {
    let mut pipeline: Pipeline<u8> = Pipeline::new(3, 1);
    assert_eq!(pipeline.next_action(), Action::Dispatch { index: 0 });
    assert_eq!(pipeline.next_action(), Action::Await);
    assert_eq!(pipeline.next_action(), Action::Await);
    assert_eq!(pipeline.in_flight_count(), 1);
    assert!(pipeline.record_stored(0, 10));
    assert_eq!(pipeline.in_flight_count(), 0);
    assert_eq!(pipeline.next_action(), Action::Dispatch { index: 1 });
    assert!(pipeline.record_stored(1, 11));
    assert_eq!(pipeline.next_action(), Action::Dispatch { index: 2 });
    assert!(!pipeline.is_complete());
    assert!(pipeline.record_stored(2, 12));
    assert!(pipeline.is_complete());
    assert_eq!(pipeline.next_action(), Action::Merge);
    assert_eq!(pipeline.next_action(), Action::Merge);
    assert_eq!(pipeline.into_merge_order(), Some(vec![10, 11, 12]));
}

#[test]
fn dispatch_follows_manifest_order() {
    let mut pipeline: Pipeline<u8> = Pipeline::new(5, 3);
    assert_eq!(pipeline.next_action(), Action::Dispatch { index: 0 });
    assert_eq!(pipeline.next_action(), Action::Dispatch { index: 1 });
    assert_eq!(pipeline.next_action(), Action::Dispatch { index: 2 });
    assert_eq!(pipeline.next_action(), Action::Await);
    assert!(pipeline.record_stored(1, 1));
    assert_eq!(pipeline.next_action(), Action::Dispatch { index: 3 });
    assert_eq!(pipeline.next_action(), Action::Await);
    assert!(pipeline.record_stored(3, 3));
    assert!(pipeline.record_stored(0, 0));
    assert_eq!(pipeline.next_action(), Action::Dispatch { index: 4 });
    assert_eq!(pipeline.next_action(), Action::Await);
    assert_eq!(pipeline.in_flight_count(), 2);
    assert!(pipeline.record_stored(4, 4));
    assert!(pipeline.record_stored(2, 2));
    assert_eq!(pipeline.next_action(), Action::Merge);
    assert_eq!(pipeline.into_merge_order(), Some(vec![0, 1, 2, 3, 4]));
}

#[test]
fn report_on_a_segment_not_in_flight_is_dropped() {
    let mut pipeline: Pipeline<&str> = Pipeline::new(3, 2);
    assert!(!pipeline.record_stored(0, "early"));
    assert_eq!(pipeline.next_action(), Action::Dispatch { index: 0 });
    assert!(!pipeline.record_stored(1, "not dispatched"));
    assert!(!pipeline.record_stored(7, "no such segment"));
    assert!(pipeline.record_stored(0, "first"));
    assert!(!pipeline.record_stored(0, "second"));
    assert!(!pipeline.record_exhausted(0, 4, "late".to_string()));
    assert_eq!(pipeline.in_flight_count(), 0);
    assert_eq!(pipeline.next_action(), Action::Dispatch { index: 1 });
    assert_eq!(pipeline.next_action(), Action::Dispatch { index: 2 });
    assert!(pipeline.record_stored(2, "c"));
    assert!(pipeline.record_stored(1, "b"));
    assert_eq!(pipeline.into_merge_order(), Some(vec!["first", "b", "c"]));
}

#[test]
fn exhausted_segment_aborts_the_run_at_once() {
    let mut pipeline: Pipeline<u8> = Pipeline::new(4, 3);
    assert_eq!(pipeline.next_action(), Action::Dispatch { index: 0 });
    assert_eq!(pipeline.next_action(), Action::Dispatch { index: 1 });
    assert_eq!(pipeline.next_action(), Action::Dispatch { index: 2 });
    assert!(pipeline.record_stored(0, 0));
    assert!(pipeline.record_exhausted(1, 4, "timed out".to_string()));
    assert_eq!(pipeline.in_flight_count(), 1);
    // Segment 2 is still running and segment 3 was never started.
    assert_eq!(pipeline.next_action(), Action::Abort);
    assert_eq!(pipeline.next_action(), Action::Abort);
    // What the siblings report afterwards is discarded.
    assert!(!pipeline.record_stored(2, 2));
    assert!(!pipeline.record_exhausted(2, 4, "another".to_string()));
    assert!(!pipeline.is_complete());
    match pipeline.into_failure() {
        Some(DownloadError::FetchExhausted { index, attempts, cause }) => {
            assert_eq!(index, 1);
            assert_eq!(attempts, 4);
            assert_eq!(cause, "timed out");
        }
        other => panic!("expected FetchExhausted, got {:?}", other),
    }
}

#[test]
fn failed_run_has_no_merge_order() {
    let mut pipeline: Pipeline<u8> = Pipeline::new(1, 1);
    assert_eq!(pipeline.next_action(), Action::Dispatch { index: 0 });
    assert!(pipeline.record_exhausted(0, 4, "gone".to_string()));
    assert_eq!(pipeline.into_merge_order(), None);
}

#[test]
fn unfinished_run_has_no_merge_order_and_no_failure() {
    let mut pipeline: Pipeline<u8> = Pipeline::new(2, 2);
    assert_eq!(pipeline.next_action(), Action::Dispatch { index: 0 });
    assert_eq!(pipeline.next_action(), Action::Dispatch { index: 1 });
    assert!(pipeline.record_stored(1, 1));
    assert!(!pipeline.is_complete());
    assert_eq!(pipeline.into_merge_order(), None);
    let mut other: Pipeline<u8> = Pipeline::new(2, 2);
    assert_eq!(other.next_action(), Action::Dispatch { index: 0 });
    assert!(other.into_failure().is_none());
}

#[test]
fn run_without_segments_is_complete_from_the_start() {
    let mut pipeline: Pipeline<u8> = Pipeline::new(0, 4);
    assert!(pipeline.is_complete());
    assert_eq!(pipeline.next_action(), Action::Merge);
    assert_eq!(pipeline.into_merge_order(), Some(Vec::new()));
}

#[test]
fn limit_of_zero_never_dispatches() {
    let mut pipeline: Pipeline<u8> = Pipeline::new(2, 0);
    assert_eq!(pipeline.next_action(), Action::Await);
    assert_eq!(pipeline.next_action(), Action::Await);
    assert_eq!(pipeline.in_flight_count(), 0);
    assert!(!pipeline.is_complete());
}

#[test]
fn transient_failure_leaves_the_assembled_stream_unchanged() {
    let payloads = vec![b"first-".to_vec(), b"second-".to_vec(), b"third".to_vec()];
    let (steady, _, _) = simulate(&payloads, 2, &mut |_| 0);

    // The same run, but the fetch of segment 1 fails once before it succeeds.
    let mut pipeline: Pipeline<Vec<u8>> = Pipeline::new(3, 2);
    let mut running: Vec<usize> = Vec::new();
    let mut attempts_of_one = 0;
    loop {
        match pipeline.next_action() {
            Action::Dispatch { index } => running.push(index),
            Action::Await => {
                let index = running.remove(0);
                let mut policy = RetryPolicy::new(3);
                let bytes = loop {
                    let fails = index == 1 && attempts_of_one == 0;
                    if index == 1 {
                        attempts_of_one += 1;
                    }
                    if !fails {
                        break payloads[index].clone();
                    }
                    assert_eq!(policy.on_failure(), RetryDecision::RetryAfter { delay_secs: 1 });
                };
                assert!(pipeline.record_stored(index, bytes));
            }
            Action::Merge => break,
            Action::Abort => panic!("no task was exhausted"),
        }
    }
    assert_eq!(attempts_of_one, 2);
    let flaky = pipeline.into_merge_order().unwrap().concat();
    assert_eq!(flaky, steady);
    assert_eq!(flaky, b"first-second-third");
}

#[test]
fn always_failing_segment_fails_the_run_after_four_attempts() {
    let mut pipeline: Pipeline<Vec<u8>> = Pipeline::new(3, 3);
    let mut running: Vec<usize> = Vec::new();
    let mut attempts_of_two = 0;
    let mut pauses = Vec::new();
    let failure = loop {
        match pipeline.next_action() {
            Action::Dispatch { index } => running.push(index),
            Action::Await => {
                let index = running.pop().unwrap();
                assert_eq!(index, 2);
                let mut policy = RetryPolicy::new(3);
                loop {
                    attempts_of_two += 1;
                    match policy.on_failure() {
                        RetryDecision::RetryAfter { delay_secs } => pauses.push(delay_secs),
                        RetryDecision::GiveUp { attempts } => {
                            assert!(pipeline.record_exhausted(index, attempts, "HTTP 500".to_string()));
                            break;
                        }
                    }
                }
            }
            Action::Merge => panic!("the run cannot complete"),
            Action::Abort => break pipeline.into_failure(),
        }
    };
    assert_eq!(attempts_of_two, 4);
    assert_eq!(pauses, vec![1, 2, 4]);
    assert!(matches!(
        failure,
        Some(DownloadError::FetchExhausted { index: 2, attempts: 4, .. })
    ));
}

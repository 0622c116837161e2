use myrient_bulk::constants::{ACCEPT, MAX_RETRIES, RETRY_BASE_DELAY_MS, USER_AGENT};
use myrient_bulk::myrient::{Header, Method, Request, Rom};
use myrient_bulk::transfer::{
    download_rom, download_roms, plan_transfer, remote_size, wait_before, BatchAction, BatchEvent,
    BatchState, BulkDownloadError, Progress, Step, TransferFailure, TransferOutcome, TransferPlan,
    TransferTask,
};

fn rom(name: &str) -> Rom {
    Rom { name: name.to_string(), file: format!("{}.zip", name), url: format!("{}.zip", name) }
}

fn task() -> TransferTask {
    TransferTask::new("out", "Redump/Sony/Game%20A.zip", &rom("Game A"), 1, 2)
}

fn browser_headers() -> Vec<Header> {
    vec![
        Header { name: "User-Agent".to_string(), value: USER_AGENT.to_string() },
        Header { name: "Accept".to_string(), value: ACCEPT.to_string() },
    ]
}

fn probed(content_length: Option<&str>, local_size: u64) -> Progress {
    Progress::Probed { content_length: content_length.map(String::from), local_size }
}

fn step(state: BatchState, event: BatchEvent, roms: &Vec<Rom>) -> (BatchState, BatchAction) {
    download_roms(
        roms,
        &"out".to_string(),
        &"Redump/".to_string(),
        &"Sony/".to_string(),
        state,
        event,
    )
}

fn attempt(action: &BatchAction) -> (String, usize, u64) {
    match action {
        BatchAction::Attempt { task, wait_ms } => (task.display_name.clone(), task.index, *wait_ms),
        BatchAction::Finish(_) => panic!("the batch ended early"),
    }
}

#[test]
fn task_names_both_ends() {
    let task = task();
    assert_eq!(task.remote_url, "https://myrient.erista.me/files/Redump/Sony/Game%20A.zip");
    assert_eq!(task.local_path, "out/Game A.zip");
    assert_eq!(task.display_name, "Game A");
    assert_eq!(task.index, 1);
    assert_eq!(task.total, 2);
}

#[test]
fn plan_for_each_pair_of_sizes() {
    assert_eq!(plan_transfer(0, 0), TransferPlan::AlreadyPresent);
    assert_eq!(plan_transfer(100, 100), TransferPlan::AlreadyPresent);
    assert_eq!(plan_transfer(0, 100), TransferPlan::Fresh);
    assert_eq!(plan_transfer(1, 100), TransferPlan::Resume { from: 1 });
    assert_eq!(plan_transfer(99, 100), TransferPlan::Resume { from: 99 });
    assert_eq!(plan_transfer(101, 100), TransferPlan::Oversized);
    assert_eq!(plan_transfer(5, 0), TransferPlan::Oversized);
    assert_eq!(plan_transfer(u64::MAX, u64::MAX), TransferPlan::AlreadyPresent);
    assert_eq!(plan_transfer(u64::MAX - 1, u64::MAX), TransferPlan::Resume { from: u64::MAX - 1 });
}

#[test]
fn plan_does_not_shorten_the_local_size() {
    assert_eq!(plan_transfer(100, 99), TransferPlan::Oversized);
    assert_eq!(plan_transfer(1, 0), TransferPlan::Oversized);
}

#[test]
fn remote_size_reads_the_header() {
    assert_eq!(remote_size(&Some("1048576".to_string())), 1048576);
    assert_eq!(remote_size(&Some("0".to_string())), 0);
    assert_eq!(remote_size(&None), 0);
    assert_eq!(remote_size(&Some(String::new())), 0);
    assert_eq!(remote_size(&Some("12 bytes".to_string())), 0);
    assert_eq!(remote_size(&Some("-5".to_string())), 0);
    assert_eq!(remote_size(&Some("18446744073709551616".to_string())), 0);
}

#[test]
fn transfer_starts_with_a_probe() {
    assert_eq!(
        download_rom(&task(), Progress::Started),
        Step::Probe(Request {
            method: Method::Head,
            url: "https://myrient.erista.me/files/Redump/Sony/Game%20A.zip".to_string(),
            headers: browser_headers(),
        })
    );
}

#[test]
fn complete_file_is_left_alone() {
    assert_eq!(
        download_rom(&task(), probed(Some("500"), 500)),
        Step::Finish(TransferOutcome::AlreadyPresent)
    );
}

#[test]
fn no_size_and_no_file_means_nothing_to_bring() {
    assert_eq!(download_rom(&task(), probed(None, 0)), Step::Finish(TransferOutcome::AlreadyPresent));
}

#[test]
fn missing_file_is_brought_whole() {
    assert_eq!(
        download_rom(&task(), probed(Some("500"), 0)),
        Step::Receive {
            request: Request {
                method: Method::Get,
                url: "https://myrient.erista.me/files/Redump/Sony/Game%20A.zip".to_string(),
                headers: browser_headers(),
            },
            plan: TransferPlan::Fresh,
        }
    );
}

#[test]
fn partial_file_is_resumed_from_its_end() {
    let mut headers = browser_headers();
    headers.push(Header { name: "Range".to_string(), value: "bytes=123-".to_string() });
    assert_eq!(
        download_rom(&task(), probed(Some("500"), 123)),
        Step::Receive {
            request: Request {
                method: Method::Get,
                url: "https://myrient.erista.me/files/Redump/Sony/Game%20A.zip".to_string(),
                headers,
            },
            plan: TransferPlan::Resume { from: 123 },
        }
    );
}

#[test]
fn resumed_transfer_fills_the_file() {
    let (local, remote) = (123u64, 500u64);
    match plan_transfer(local, remote) {
        TransferPlan::Resume { from } => {
            assert_eq!(from, local);
            assert_eq!(local + (remote - from), remote);
        },
        other => panic!("expected a resumed transfer, got {:?}", other),
    }
}

#[test]
fn second_transfer_of_a_complete_file_is_idle() {
    let remote = 500u64;
    for local in [0u64, 1, 499] {
        let after = match plan_transfer(local, remote) {
            TransferPlan::Fresh => local + remote,
            TransferPlan::Resume { from } => local + (remote - from),
            other => panic!("unexpected plan {:?}", other),
        };
        assert_eq!(
            download_rom(&task(), probed(Some("500"), after)),
            Step::Finish(TransferOutcome::AlreadyPresent)
        );
    }
}

#[test]
fn longer_local_file_fails_untouched() {
    assert_eq!(
        download_rom(&task(), probed(Some("500"), 501)),
        Step::Finish(TransferOutcome::Failed(TransferFailure::LocalLarger {
            local_size: 501,
            remote_size: 500
        }))
    );
    assert_eq!(
        download_rom(&task(), probed(None, 7)),
        Step::Finish(TransferOutcome::Failed(TransferFailure::LocalLarger {
            local_size: 7,
            remote_size: 0
        }))
    );
}

#[test]
fn received_content_completes_the_transfer() {
    assert_eq!(download_rom(&task(), Progress::Received), Step::Finish(TransferOutcome::Completed));
}

#[test]
fn broken_request_fails_the_transfer() {
    assert_eq!(
        download_rom(&task(), Progress::Broken("connection reset".to_string())),
        Step::Finish(TransferOutcome::Failed(TransferFailure::Transport(
            "connection reset".to_string()
        )))
    );
}

#[test]
fn waits_double_from_the_base() {
    assert_eq!(RETRY_BASE_DELAY_MS, 100);
    assert_eq!(wait_before(0), 0);
    assert_eq!(wait_before(1), 100);
    assert_eq!(wait_before(2), 200);
    assert_eq!(wait_before(3), 400);
    assert_eq!(wait_before(4), 800);
    assert_eq!(wait_before(11), 102400);
}

#[test]
fn waits_stop_at_the_largest_number() {
    assert_eq!(wait_before(58), 100 * (1u64 << 57));
    assert_eq!(wait_before(59), u64::MAX);
    assert_eq!(wait_before(u32::MAX), u64::MAX);
}

#[test]
fn batch_starts_with_its_first_file() {
    let roms = vec![rom("a"), rom("b")];
    let (state, action) = step(BatchState::new(), BatchEvent::Start, &roms);
    assert_eq!(state, BatchState::new());
    match action {
        BatchAction::Attempt { task, wait_ms } => {
            assert_eq!(task.remote_url, "https://myrient.erista.me/files/Redump/Sony/a.zip");
            assert_eq!(task.display_name, "a");
            assert_eq!(task.index, 1);
            assert_eq!(task.total, 2);
            assert_eq!(wait_ms, 0);
        },
        BatchAction::Finish(_) => panic!("the batch ended early"),
    }
}

#[test]
fn empty_batch_ends_well_at_once() {
    let (state, action) = step(BatchState::new(), BatchEvent::Start, &vec![]);
    assert_eq!(state, BatchState::new());
    assert_eq!(action, BatchAction::Finish(Ok(())));
}

#[test]
fn failing_file_is_retried_three_times_then_given_up() {
    assert_eq!(MAX_RETRIES, 3);
    let roms = vec![rom("a"), rom("b")];
    let (mut state, mut action) = step(BatchState::new(), BatchEvent::Start, &roms);
    let mut attempts = vec![attempt(&action)];
    loop {
        (state, action) = step(state, BatchEvent::Failed, &roms);
        let next = attempt(&action);
        if next.0 != "a" {
            break;
        }
        attempts.push(next);
    }
    assert_eq!(
        attempts,
        vec![
            ("a".to_string(), 1, 0),
            ("a".to_string(), 1, 100),
            ("a".to_string(), 1, 200),
            ("a".to_string(), 1, 400),
        ]
    );
    assert_eq!(attempt(&action), ("b".to_string(), 2, 0));
    assert_eq!(state, BatchState { current: 1, retries: 0, failed_roms: vec![rom("a")] });
}

#[test]
fn success_on_the_second_attempt_ends_the_retries() {
    let roms = vec![rom("a"), rom("b")];
    let (state, _) = step(BatchState::new(), BatchEvent::Start, &roms);
    let (state, action) = step(state, BatchEvent::Failed, &roms);
    assert_eq!(attempt(&action), ("a".to_string(), 1, 100));
    let (state, action) = step(state, BatchEvent::Succeeded, &roms);
    assert_eq!(attempt(&action), ("b".to_string(), 2, 0));
    assert_eq!(state, BatchState { current: 1, retries: 0, failed_roms: vec![] });
}

#[test]
fn exhausted_file_does_not_stop_the_batch() {
    let roms = vec![rom("a"), rom("b"), rom("c")];
    let (mut state, mut action) = step(BatchState::new(), BatchEvent::Start, &roms);
    let events = [
        BatchEvent::Succeeded,
        BatchEvent::Failed,
        BatchEvent::Failed,
        BatchEvent::Failed,
        BatchEvent::Failed,
        BatchEvent::Succeeded,
    ];
    for event in events {
        assert!(matches!(action, BatchAction::Attempt { .. }));
        (state, action) = step(state, event, &roms);
    }
    assert_eq!(state, BatchState { current: 3, retries: 0, failed_roms: vec![rom("b")] });
    assert_eq!(action, BatchAction::Finish(Err(BulkDownloadError { failed_roms: vec![rom("b")] })));
}

#[test]
fn batch_without_failures_ends_well() {
    let roms = vec![rom("a"), rom("b")];
    let (state, _) = step(BatchState::new(), BatchEvent::Start, &roms);
    let (state, _) = step(state, BatchEvent::Succeeded, &roms);
    let (state, action) = step(state, BatchEvent::Succeeded, &roms);
    assert_eq!(action, BatchAction::Finish(Ok(())));
    let (state, action) = step(state, BatchEvent::Failed, &roms);
    assert_eq!(state, BatchState { current: 2, retries: 0, failed_roms: vec![] });
    assert_eq!(action, BatchAction::Finish(Ok(())));
}

#[test]
fn bulk_error_lists_the_names() {
    let error = BulkDownloadError { failed_roms: vec![rom("Game A"), rom("Game B")] };
    assert_eq!(error.message(), "Failed to download the following ROMs: Game A Game B ");
    let none = BulkDownloadError { failed_roms: vec![] };
    assert_eq!(none.message(), "Failed to download the following ROMs: ");
}

#[test]
fn rejected_file_is_given_up_at_once() {
    let roms = vec![rom("a"), rom("b")];
    let (state, _) = step(BatchState::new(), BatchEvent::Start, &roms);
    let (state, action) = step(state, BatchEvent::Rejected, &roms);
    assert_eq!(attempt(&action), ("b".to_string(), 2, 0));
    assert_eq!(state, BatchState { current: 1, retries: 0, failed_roms: vec![rom("a")] });
}

#[test]
fn events_follow_outcomes() {
    assert_eq!(BatchEvent::after(&TransferOutcome::Completed), BatchEvent::Succeeded);
    assert_eq!(BatchEvent::after(&TransferOutcome::AlreadyPresent), BatchEvent::Succeeded);
    assert_eq!(
        BatchEvent::after(&TransferOutcome::Failed(TransferFailure::Transport("reset".to_string()))),
        BatchEvent::Failed
    );
    assert_eq!(
        BatchEvent::after(&TransferOutcome::Failed(TransferFailure::LocalLarger {
            local_size: 2,
            remote_size: 1
        })),
        BatchEvent::Rejected
    );
}

#[test]
fn bulk_error_can_be_copied() {
    let error = BulkDownloadError { failed_roms: vec![rom("a"), rom("b")] };
    assert_eq!(error.clone(), error);
}

//! Transfers: what to ask of the server for one file, given what is already
//! on disk, and how a batch of files goes on after each attempt.

use crate::constants::{MAX_RETRIES, MYRIENT_HTTP_ADDR, RETRY_BASE_DELAY_MS};
use crate::myrient::{
    address, browser_headers, request, Header, Method, Request, RequestView, Rom, RomView,
};
use crate::text::{
    decimal, join_path, joined_path, numeral_value, parse_decimal, strip_suffix, to_decimal,
    without_suffix,
};
use vstd::prelude::*;

verus! {

/// The output directory as it is used: without the path separator that may
/// stand at its end.
pub fn output_dir(path: &str, separator: &str) -> (dir: String)
    ensures
        dir@ == without_suffix(path@, separator@),
{
    strip_suffix(path, separator)
}

/// One file to bring: where it lies, where it goes, and its place in the
/// batch.
#[derive(Debug, PartialEq, Eq)]
pub struct TransferTask {
    /// Full address of the file.
    pub remote_url: String,
    /// Path of the local file.
    pub local_path: String,
    /// Name under which progress is reported.
    pub display_name: String,
    /// Place in the batch, counted from one.
    pub index: usize,
    /// Size of the batch.
    pub total: usize,
}

/// What a `TransferTask` stands for.
pub struct TaskView {
    pub remote_url: Seq<char>,
    pub local_path: Seq<char>,
    pub display_name: Seq<char>,
    pub index: nat,
    pub total: nat,
}

impl View for TransferTask {
    type V = TaskView;

    open spec fn view(&self) -> TaskView {
        TaskView {
            remote_url: self.remote_url@,
            local_path: self.local_path@,
            display_name: self.display_name@,
            index: self.index as nat,
            total: self.total as nat,
        }
    }
}

/// The task that brings `rom` from under `rom_path` on the server into the
/// directory `output_path`.
pub open spec fn task_of(
    output_path: Seq<char>,
    rom_path: Seq<char>,
    rom: RomView,
    index: nat,
    total: nat,
) -> TaskView {
    TaskView {
        remote_url: MYRIENT_HTTP_ADDR@ + rom_path,
        local_path: joined_path(output_path, rom.file),
        display_name: rom.name,
        index,
        total,
    }
}

impl TransferTask {
    /// Makes the task for one file. The local file bears the name that the
    /// listing shows, not the identity key.
    pub fn new(output_path: &str, rom_path: &str, rom: &Rom, index: usize, total: usize) -> (task:
        TransferTask)
        ensures
            task@ == task_of(output_path@, rom_path@, rom@, index as nat, total as nat),
    {
        TransferTask {
            remote_url: address(rom_path),
            local_path: join_path(output_path, rom.file.as_str()),
            display_name: rom.name.clone(),
            index,
            total,
        }
    }
}

/// What to do about one file, given the sizes on both sides.
#[derive(Debug, Clone, Copy, PartialEq, Eq, Structural)]
pub enum TransferPlan {
    /// The local file is as long as the remote one: nothing to bring.
    AlreadyPresent,
    /// Nothing is there yet: bring the whole file.
    Fresh,
    /// Part of the file is there: bring the rest, from this byte on.
    Resume { from: u64 },
    /// The local file is longer than the remote one. It is left alone:
    /// nothing is appended to it and nothing is cut off.
    Oversized,
}

/// The plan for a local file of `local` bytes and a remote one of `remote`.
pub open spec fn plan_of(local: nat, remote: nat) -> TransferPlan {
    if local == remote {
        TransferPlan::AlreadyPresent
    } else if local > remote {
        TransferPlan::Oversized
    } else if local == 0 {
        TransferPlan::Fresh
    } else {
        TransferPlan::Resume { from: local as u64 }
    }
}

/// The bytes that a plan brings of a remote file of `remote` bytes.
pub open spec fn bytes_to_bring(plan: TransferPlan, remote: nat) -> nat {
    match plan {
        TransferPlan::AlreadyPresent => 0,
        TransferPlan::Fresh => remote,
        TransferPlan::Resume { from } => if from <= remote {
            (remote - from) as nat
        } else {
            0
        },
        TransferPlan::Oversized => 0,
    }
}

/// Decides what to do about one file. Sizes are compared as they are.
pub fn plan_transfer(local_size: u64, remote_size: u64) -> (plan: TransferPlan)
    ensures
        plan == plan_of(local_size as nat, remote_size as nat),
{
    if local_size == remote_size {
        TransferPlan::AlreadyPresent
    } else if local_size > remote_size {
        TransferPlan::Oversized
    } else if local_size == 0 {
        TransferPlan::Fresh
    } else {
        TransferPlan::Resume { from: local_size }
    }
}

/// A transfer that ran to its end leaves the local file as long as the remote
/// one, unless the local file was longer to begin with.
pub proof fn lemma_completed_transfer_fills_file(local: nat, remote: nat)
    requires
        local <= remote <= u64::MAX,
    ensures
        local + bytes_to_bring(plan_of(local, remote), remote) == remote,
{
}

/// A local file that holds some, but not all, of the remote file is resumed:
/// the request asks for the bytes from the end of the local file on, and with
/// them the local file is as long as the remote one.
pub proof fn lemma_resume_asks_for_the_rest(url: Seq<char>, local: nat, remote: nat)
    requires
        0 < local < remote <= u64::MAX,
    ensures
        plan_of(local, remote) == (TransferPlan::Resume { from: local as u64 }),
        transfer_request(url, plan_of(local, remote)).headers == browser_headers().push(
            ("Range"@, "bytes="@ + decimal(local) + "-"@),
        ),
        local + bytes_to_bring(plan_of(local, remote), remote) == remote,
{
}

/// Once a file is complete, transferring it again finds it present and brings
/// no byte.
pub proof fn lemma_second_transfer_is_idle(local: nat, remote: nat)
    requires
        local <= remote <= u64::MAX,
    ensures
        ({
            let after = local + bytes_to_bring(plan_of(local, remote), remote);
            plan_of(after, remote) == TransferPlan::AlreadyPresent && bytes_to_bring(
                plan_of(after, remote),
                remote,
            ) == 0
        }),
{
}

/// The length that a `Content-Length` header announces; 0 where the header is
/// missing or is no number that fits 64 bits.
pub open spec fn announced_size(content_length: Option<Seq<char>>) -> nat {
    match content_length {
        Some(text) => match numeral_value(text) {
            Some(n) => if n <= u64::MAX {
                n
            } else {
                0
            },
            None => 0,
        },
        None => 0,
    }
}

/// Reads the length of the remote file out of the `Content-Length` header.
pub fn remote_size(content_length: &Option<String>) -> (size: u64)
    ensures
        size == announced_size(content_length.deep_view()),
{
    match content_length {
        Some(text) => match parse_decimal(text.as_str(), u64::MAX) {
            Some(n) => n,
            None => 0,
        },
        None => 0,
    }
}

/// The header that asks for a file from byte `from` on.
pub open spec fn range_header(from: nat) -> (Seq<char>, Seq<char>) {
    ("Range"@, "bytes="@ + decimal(from) + "-"@)
}

/// The request that brings a file according to a plan: a GET with the headers
/// of a browser and, for a resumed transfer, the range that is still missing.
pub open spec fn transfer_request(url: Seq<char>, plan: TransferPlan) -> RequestView {
    RequestView {
        method: Method::Get,
        url,
        headers: match plan {
            TransferPlan::Resume { from } => browser_headers().push(range_header(from as nat)),
            _ => browser_headers(),
        },
    }
}

/// How far the transfer of one file has come.
#[derive(Debug, PartialEq, Eq)]
pub enum Progress {
    /// Nothing has been done yet.
    Started,
    /// The server has described the file, and the local file was measured
    /// (0 where there is none).
    Probed { content_length: Option<String>, local_size: u64 },
    /// The content arrived in full and was appended to the local file.
    Received,
    /// A request failed; the text says how.
    Broken(String),
}

/// Why a transfer failed.
#[derive(Debug, PartialEq, Eq)]
pub enum TransferFailure {
    /// A request failed; the text says how.
    Transport(String),
    /// The local file is longer than the remote one.
    LocalLarger { local_size: u64, remote_size: u64 },
}

/// How the transfer of one file ended.
#[derive(Debug, PartialEq, Eq)]
pub enum TransferOutcome {
    Completed,
    AlreadyPresent,
    Failed(TransferFailure),
}

/// What to do next for one file.
#[derive(Debug, PartialEq, Eq)]
pub enum Step {
    /// Send this HEAD request, measure the local file, and come back with
    /// `Progress::Probed`.
    Probe(Request),
    /// Send this GET request and append what arrives to the local file; come
    /// back with `Progress::Received`.
    Receive { request: Request, plan: TransferPlan },
    /// The transfer is over.
    Finish(TransferOutcome),
}

/// Tells what to do next for one file. A transfer starts by asking the server
/// for the file's length. With both lengths known, a file that is complete is
/// left alone, one that is partly there is resumed from its end, one that is
/// not there is brought whole, and one that is longer than the remote file
/// fails without any further request. A transfer whose content arrived is
/// complete; a broken request fails it.
pub fn download_rom(task: &TransferTask, progress: Progress) -> (step: Step)
    ensures
        (match progress {
            Progress::Started => step matches Step::Probe(head) && head@ == (RequestView {
                method: Method::Head,
                url: task@.remote_url,
                headers: browser_headers(),
            }),
            Progress::Probed { content_length, local_size } => {
                let remote = announced_size(content_length.deep_view());
                match plan_of(local_size as nat, remote) {
                    TransferPlan::AlreadyPresent => step == Step::Finish(
                        TransferOutcome::AlreadyPresent,
                    ),
                    TransferPlan::Oversized => step == Step::Finish(
                        TransferOutcome::Failed(
                            TransferFailure::LocalLarger { local_size, remote_size: remote as u64 },
                        ),
                    ),
                    plan => step matches Step::Receive { request, plan: planned } && planned == plan
                        && request@ == transfer_request(task@.remote_url, plan),
                }
            },
            Progress::Received => step == Step::Finish(TransferOutcome::Completed),
            Progress::Broken(reason) => step == Step::Finish(
                TransferOutcome::Failed(TransferFailure::Transport(reason)),
            ),
        }),
{
    match progress {
        Progress::Started => Step::Probe(request(Method::Head, task.remote_url.clone())),
        Progress::Probed { content_length, local_size } => {
            let remote = remote_size(&content_length);
            let plan = plan_transfer(local_size, remote);
            match plan {
                TransferPlan::AlreadyPresent => Step::Finish(TransferOutcome::AlreadyPresent),
                TransferPlan::Oversized => Step::Finish(
                    TransferOutcome::Failed(
                        TransferFailure::LocalLarger { local_size, remote_size: remote },
                    ),
                ),
                TransferPlan::Fresh => Step::Receive {
                    request: request(Method::Get, task.remote_url.clone()),
                    plan,
                },
                TransferPlan::Resume { from } => {
                    let mut req = request(Method::Get, task.remote_url.clone());
                    let value = String::from_str("bytes=").concat(to_decimal(from).as_str()).concat(
                        "-",
                    );
                    req.headers.push(Header { name: String::from_str("Range"), value });
                    assert(req.headers.deep_view() =~= browser_headers().push(
                        range_header(from as nat),
                    ));
                    Step::Receive { request: req, plan }
                },
            }
        },
        Progress::Received => Step::Finish(TransferOutcome::Completed),
        Progress::Broken(reason) => Step::Finish(
            TransferOutcome::Failed(TransferFailure::Transport(reason)),
        ),
    }
}

/// The files of a batch that could not be brought.
#[derive(Debug, PartialEq, Eq)]
pub struct BulkDownloadError {
    pub failed_roms: Vec<Rom>,
}

impl View for BulkDownloadError {
    type V = Seq<RomView>;

    open spec fn view(&self) -> Seq<RomView> {
        self.failed_roms.deep_view()
    }
}

fn copy_roms(roms: &Vec<Rom>) -> (copy: Vec<Rom>)
    ensures
        copy.deep_view() == roms.deep_view(),
{
    let mut copy: Vec<Rom> = Vec::new();
    let mut i: usize = 0;
    while i < roms.len()
        invariant
            i <= roms.len(),
            copy.deep_view() == roms.deep_view().take(i as int),
        decreases roms.len() - i,
    {
        let ghost before = copy.deep_view();
        let rom = roms[i].clone();
        copy.push(rom);
        assert(copy.deep_view() =~= before.push(rom@));
        assert(roms.deep_view()[i as int] == roms[i as int]@);
        assert(copy.deep_view() =~= roms.deep_view().take(i + 1));
        i = i + 1;
    }
    assert(roms.deep_view().take(roms.len() as int) =~= roms.deep_view());
    copy
}

impl Clone for BulkDownloadError {
    fn clone(&self) -> (copy: Self)
        ensures
            copy@ == self@,
    {
        BulkDownloadError { failed_roms: copy_roms(&self.failed_roms) }
    }
}

/// The names of `roms`, each followed by a blank.
pub open spec fn names_line(roms: Seq<RomView>) -> Seq<char>
    decreases roms.len(),
{
    if roms.len() == 0 {
        Seq::empty()
    } else {
        names_line(roms.drop_last()) + roms.last().name + " "@
    }
}

impl BulkDownloadError {
    /// The error in words: a fixed opening and then the name of each failed
    /// file, each followed by a blank.
    pub fn message(&self) -> (text: String)
        ensures
            text@ == "Failed to download the following ROMs: "@ + names_line(self@),
    {
        let mut text = String::from_str("Failed to download the following ROMs: ");
        let ghost opening = text@;
        let ghost all = self.failed_roms.deep_view();
        let mut i: usize = 0;
        assert(all.take(0) =~= Seq::empty());
        assert(text@ =~= opening + names_line(all.take(0)));
        while i < self.failed_roms.len()
            invariant
                i <= self.failed_roms.len(),
                all == self.failed_roms.deep_view(),
                text@ == opening + names_line(all.take(i as int)),
            decreases self.failed_roms.len() - i,
        {
            proof {
                assert(all.take(i + 1).drop_last() =~= all.take(i as int));
                assert(all.take(i + 1).last() == self.failed_roms[i as int]@);
            }
            let ghost before = text@;
            text.append(self.failed_roms[i].name.as_str());
            text.append(" ");
            assert(text@ =~= opening + names_line(all.take(i + 1)));
            i = i + 1;
        }
        assert(all.take(self.failed_roms.len() as int) =~= all);
        text
    }
}

/// The time to wait before a retry, in milliseconds: 100 before the first,
/// and twice the last wait before each further one. Nothing is waited before
/// the first attempt, which is retry 0.
pub open spec fn retry_wait(retry: nat) -> nat
    decreases retry,
{
    if retry == 0 {
        0
    } else if retry == 1 {
        RETRY_BASE_DELAY_MS as nat
    } else {
        2 * retry_wait((retry - 1) as nat)
    }
}

proof fn lemma_retry_wait_grows(retry: nat)
    requires
        retry >= 1,
    ensures
        retry_wait(retry) >= RETRY_BASE_DELAY_MS,
        retry_wait(retry + 1) == 2 * retry_wait(retry),
    decreases retry,
{
    if retry > 1 {
        lemma_retry_wait_grows((retry - 1) as nat);
    }
}

/// The wait before a retry as the machine counts it: a wait beyond 64 bits is
/// cut to the largest one that fits.
pub open spec fn capped_wait(retry: nat) -> nat {
    if retry_wait(retry) <= u64::MAX {
        retry_wait(retry)
    } else {
        u64::MAX as nat
    }
}

/// Computes the wait before a retry.
pub fn wait_before(retry: u32) -> (ms: u64)
    ensures
        ms == capped_wait(retry as nat),
{
    if retry == 0 {
        return 0;
    }
    let mut ms: u64 = RETRY_BASE_DELAY_MS;
    let mut k: u32 = 1;
    while k < retry
        invariant
            1 <= k <= retry,
            ms == capped_wait(k as nat),
        decreases retry - k,
    {
        proof {
            lemma_retry_wait_grows(k as nat);
        }
        if ms > u64::MAX / 2 {
            ms = u64::MAX;
        } else {
            ms = ms * 2;
        }
        k = k + 1;
    }
    ms
}

/// Where a batch stands: the file in turn, the retries spent on it, and the
/// files given up so far.
#[derive(Debug, PartialEq, Eq)]
pub struct BatchState {
    /// Position of the file in turn; the length of the batch once it is over.
    pub current: usize,
    /// Retries made for the file in turn.
    pub retries: u32,
    /// The files that were given up, in batch order.
    pub failed_roms: Vec<Rom>,
}

/// What a `BatchState` stands for.
pub struct BatchView {
    pub current: nat,
    pub retries: nat,
    pub failed: Seq<RomView>,
}

impl View for BatchState {
    type V = BatchView;

    open spec fn view(&self) -> BatchView {
        BatchView {
            current: self.current as nat,
            retries: self.retries as nat,
            failed: self.failed_roms.deep_view(),
        }
    }
}

/// What happened to the attempt that was last asked for.
#[derive(Debug, Clone, Copy, PartialEq, Eq, Structural)]
pub enum BatchEvent {
    /// No attempt was asked for yet.
    Start,
    /// The attempt brought the file, or found it present.
    Succeeded,
    /// The attempt failed in a way that another attempt may mend.
    Failed,
    /// The attempt failed in a way that no further attempt can mend.
    Rejected,
}

/// The event that the end of an attempt is to a batch. A broken request may
/// be tried again; a local file that is longer than the remote one may not.
pub open spec fn event_of(outcome: TransferOutcome) -> BatchEvent {
    match outcome {
        TransferOutcome::Completed => BatchEvent::Succeeded,
        TransferOutcome::AlreadyPresent => BatchEvent::Succeeded,
        TransferOutcome::Failed(TransferFailure::Transport(_)) => BatchEvent::Failed,
        TransferOutcome::Failed(TransferFailure::LocalLarger { .. }) => BatchEvent::Rejected,
    }
}

impl BatchEvent {
    /// Tells a batch how an attempt ended.
    pub fn after(outcome: &TransferOutcome) -> (event: BatchEvent)
        ensures
            event == event_of(*outcome),
    {
        match outcome {
            TransferOutcome::Completed => BatchEvent::Succeeded,
            TransferOutcome::AlreadyPresent => BatchEvent::Succeeded,
            TransferOutcome::Failed(TransferFailure::Transport(_)) => BatchEvent::Failed,
            TransferOutcome::Failed(TransferFailure::LocalLarger { .. }) => BatchEvent::Rejected,
        }
    }
}

/// What to do next in a batch.
#[derive(Debug, PartialEq, Eq)]
pub enum BatchAction {
    /// Bring one file, after a wait of so many milliseconds.
    Attempt { task: TransferTask, wait_ms: u64 },
    /// The batch is over: well, or with the files that were given up.
    Finish(Result<(), BulkDownloadError>),
}

/// The state of a batch after an event. A success moves on to the next file.
/// A failure spends a retry on the same file while one is left, and else gives
/// the file up and moves on. A rejection gives the file up at once. A batch
/// that is over stays as it is.
pub open spec fn batch_step(roms: Seq<RomView>, state: BatchView, event: BatchEvent) -> BatchView {
    if state.current >= roms.len() {
        state
    } else {
        match event {
            BatchEvent::Start => state,
            BatchEvent::Succeeded => BatchView {
                current: state.current + 1,
                retries: 0,
                failed: state.failed,
            },
            BatchEvent::Failed => if state.retries < MAX_RETRIES {
                BatchView {
                    current: state.current,
                    retries: state.retries + 1,
                    failed: state.failed,
                }
            } else {
                BatchView {
                    current: state.current + 1,
                    retries: 0,
                    failed: state.failed.push(roms[state.current as int]),
                }
            },
            BatchEvent::Rejected => BatchView {
                current: state.current + 1,
                retries: 0,
                failed: state.failed.push(roms[state.current as int]),
            },
        }
    }
}

/// Whether a batch in this state is over.
pub open spec fn batch_over(roms: Seq<RomView>, state: BatchView) -> bool {
    state.current >= roms.len()
}

impl BatchState {
    /// A batch of which nothing was attempted yet.
    pub fn new() -> (state: BatchState)
        ensures
            state@ == (BatchView { current: 0, retries: 0, failed: Seq::empty() }),
    {
        let failed_roms: Vec<Rom> = Vec::new();
        assert(failed_roms.deep_view() =~= Seq::empty());
        BatchState { current: 0, retries: 0, failed_roms }
    }
}

/// Carries a batch on after an event and tells what to do next. Files are
/// attempted one at a time, in order. A failed attempt is retried up to three
/// times, after waits of 100, 200 and 400 milliseconds; a file whose last
/// retry fails, or whose attempt is rejected, is given up, and the batch goes
/// on with the next file. When no file is left the batch ends: well if no file
/// was given up, and else with the files that were.
///
/// The address of a file is the server's root followed by `catalog_url`,
/// `collection_url` and the file's own link.
pub fn download_roms(
    roms: &Vec<Rom>,
    output_dir: &String,
    catalog_url: &String,
    collection_url: &String,
    state: BatchState,
    event: BatchEvent,
) -> (next: (BatchState, BatchAction))
    ensures
        next.0@ == batch_step(roms.deep_view(), state@, event),
        (if !batch_over(roms.deep_view(), next.0@) {
            let at = next.0@.current as int;
            &&& next.1 matches BatchAction::Attempt { task, wait_ms }
            &&& task@ == task_of(
                output_dir@,
                catalog_url@ + collection_url@ + roms.deep_view()[at].url,
                roms.deep_view()[at],
                (at + 1) as nat,
                roms.len() as nat,
            )
            &&& wait_ms == capped_wait(next.0@.retries)
        } else if next.0@.failed.len() == 0 {
            next.1 == BatchAction::Finish(Ok(()))
        } else {
            &&& next.1 matches BatchAction::Finish(Err(error))
            &&& error@ == next.0@.failed
        }),
{
    let mut state = state;
    if state.current < roms.len() {
        assert(roms.deep_view()[state.current as int] == roms[state.current as int]@);
        match event {
            BatchEvent::Start => {},
            BatchEvent::Succeeded => {
                state.current = state.current + 1;
                state.retries = 0;
            },
            BatchEvent::Failed => {
                if state.retries < MAX_RETRIES {
                    state.retries = state.retries + 1;
                } else {
                    let ghost before = state.failed_roms.deep_view();
                    let rom = roms[state.current].clone();
                    state.failed_roms.push(rom);
                    assert(state.failed_roms.deep_view() =~= before.push(rom@));
                    state.current = state.current + 1;
                    state.retries = 0;
                }
            },
            BatchEvent::Rejected => {
                let ghost before = state.failed_roms.deep_view();
                let rom = roms[state.current].clone();
                state.failed_roms.push(rom);
                assert(state.failed_roms.deep_view() =~= before.push(rom@));
                state.current = state.current + 1;
                state.retries = 0;
            },
        }
    }
    if state.current < roms.len() {
        let rom = &roms[state.current];
        assert(roms.deep_view()[state.current as int] == rom@);
        let path = catalog_url.clone().concat(collection_url.as_str()).concat(rom.url.as_str());
        let task = TransferTask::new(
            output_dir.as_str(),
            path.as_str(),
            rom,
            state.current + 1,
            roms.len(),
        );
        let wait_ms = wait_before(state.retries);
        (state, BatchAction::Attempt { task, wait_ms })
    } else if state.failed_roms.len() == 0 {
        (state, BatchAction::Finish(Ok(())))
    } else {
        let failed_roms = copy_roms(&state.failed_roms);
        (state, BatchAction::Finish(Err(BulkDownloadError { failed_roms })))
    }
}

/// The state of a batch after `n` failed attempts in a row.
pub open spec fn after_failures(roms: Seq<RomView>, state: BatchView, n: nat) -> BatchView
    decreases n,
{
    if n == 0 {
        state
    } else {
        batch_step(roms, after_failures(roms, state, (n - 1) as nat), BatchEvent::Failed)
    }
}

/// A file whose every attempt fails is retried exactly three times, after
/// waits of 100, 200 and 400 milliseconds, and is given up when the third
/// retry fails; the batch then goes on with the next file. A file whose first
/// retry succeeds is not given up and not retried again.
pub proof fn lemma_retry_policy(roms: Seq<RomView>, state: BatchView)
    requires
        state.current < roms.len(),
        state.retries == 0,
    ensures
        MAX_RETRIES == 3,
        forall|n: nat|
            1 <= n <= MAX_RETRIES ==> #[trigger] after_failures(roms, state, n) == (BatchView {
                current: state.current,
                retries: n,
                failed: state.failed,
            }),
        capped_wait(1) == 100 && capped_wait(2) == 200 && capped_wait(3) == 400,
        after_failures(roms, state, (MAX_RETRIES + 1) as nat) == (BatchView {
            current: state.current + 1,
            retries: 0,
            failed: state.failed.push(roms[state.current as int]),
        }),
        batch_step(roms, after_failures(roms, state, 1), BatchEvent::Succeeded) == (BatchView {
            current: state.current + 1,
            retries: 0,
            failed: state.failed,
        }),
{
    reveal_with_fuel(after_failures, 5);
    reveal_with_fuel(retry_wait, 4);
}

} // verus!

//! The decisions of a resumable download: where to resume, when there is
//! nothing left to fetch, how far a transfer has come, and whether a failed
//! attempt is made again.

use crate::decimal::{decimal_text, format_u64};
use crate::text::{concat2, concat3};
use vstd::prelude::*;

verus! {

/// The status of an HTTP answer: its number and the way it is written out.
#[derive(Debug)]
pub struct HttpStatus {
    pub code: u16,
    pub text: String,
}

/// What is known of a network exchange that failed.
#[derive(Debug)]
pub struct NetworkFailure {
    /// The connection could not be made.
    pub connect: bool,
    /// The exchange timed out.
    pub timeout: bool,
    /// The status of the answer, where the failure is an answer's status.
    pub status: Option<HttpStatus>,
    /// The failure in words.
    pub message: String,
}

/// Why a download failed.
#[derive(Debug)]
pub enum DownloadError {
    /// The transport failed.
    Network(NetworkFailure),
    /// The local file system failed; the text says how.
    IO(String),
    /// Anything else.
    Generic(String),
}

impl DownloadError {
    /// An error that is nothing but a message.
    pub fn from_string(s: String) -> (r: Self)
        ensures
            r == DownloadError::Generic(s),
    {
        DownloadError::Generic(s)
    }

    /// Whether another attempt may help: only a failure to connect and a
    /// timeout are worth one.
    pub open spec fn retryable(&self) -> bool {
        match self {
            DownloadError::Network(failure) => failure.connect || failure.timeout,
            _ => false,
        }
    }

    /// Whether another attempt may help.
    pub fn is_retryable(&self) -> (r: bool)
        ensures
            r == self.retryable(),
    {
        match self {
            DownloadError::Network(failure) => failure.connect || failure.timeout,
            _ => false,
        }
    }

    /// The error in words.
    pub open spec fn text(&self) -> Seq<char> {
        match self {
            DownloadError::Network(failure) => failure.message@,
            DownloadError::IO(message) => message@,
            DownloadError::Generic(message) => message@,
        }
    }

    /// The error in words.
    pub fn to_string(&self) -> (r: String)
        ensures
            r@ == self.text(),
    {
        match self {
            DownloadError::Network(failure) => failure.message.clone(),
            DownloadError::IO(message) => message.clone(),
            DownloadError::Generic(message) => message.clone(),
        }
    }
}

// ---------------------------------------------------------------------------
// One attempt
// ---------------------------------------------------------------------------

/// How far a transfer has come.
#[derive(Debug, Clone, Copy, PartialEq, Eq, Structural)]
pub struct TransferState {
    /// The bytes that are on disk or accounted for.
    pub downloaded: u64,
    /// The size of the remote file.
    pub total_size: u64,
}

/// How an attempt begins, once the local and the remote size are known.
#[derive(Debug)]
pub enum TransferStart {
    /// The local file is as long as the remote one, or longer: nothing is
    /// requested.
    AlreadyComplete,
    /// Request the bytes from `state.downloaded` on, with `range_header` as
    /// the value of the `Range` header, and append them to the file.
    Resume { state: TransferState, range_header: String },
}

/// The number of bytes already on disk: the length of the file found at the
/// destination, or 0 for a file that has just been created.
pub open spec fn bytes_on_disk(existing_size: Option<u64>) -> u64 {
    match existing_size {
        Some(n) => n,
        None => 0,
    }
}

/// The value of the `Range` header that asks for everything from `offset`.
pub open spec fn range_from(offset: u64) -> Seq<char> {
    "bytes="@ + decimal_text(offset as nat) + "-"@
}

/// The error for an address whose size the server does not tell.
pub open spec fn no_length_message(url: Seq<char>) -> Seq<char> {
    "Failed to get content length from '"@ + url + "'"@
}

/// Begins an attempt. `existing_size` is the length of the file found at the
/// destination, if there was one; `content_length` is the size the server
/// reports for `url`, if it reports one.
///
/// Without a reported size the attempt fails. With the local file at least
/// as long as the remote one there is nothing to do. Else the transfer
/// resumes at the end of the local file.
pub fn start_transfer(existing_size: Option<u64>, content_length: Option<u64>, url: &str) -> (r:
    Result<TransferStart, DownloadError>)
    ensures
        match content_length {
            None => r matches Err(DownloadError::Generic(m)) && m@ == no_length_message(url@),
            Some(total) => if bytes_on_disk(existing_size) >= total {
                r matches Ok(TransferStart::AlreadyComplete)
            } else {
                r matches Ok(TransferStart::Resume { state, range_header }) && state
                    == (TransferState { downloaded: bytes_on_disk(existing_size), total_size: total })
                    && range_header@ == range_from(bytes_on_disk(existing_size))
            },
        },
{
    let downloaded: u64 = match existing_size {
        Some(n) => n,
        None => 0,
    };
    let total_size: u64 = match content_length {
        Some(n) => n,
        None => {
            return Err(
                DownloadError::from_string(
                    concat3("Failed to get content length from '", url, "'"),
                ),
            );
        },
    };
    if downloaded >= total_size {
        return Ok(TransferStart::AlreadyComplete);
    }
    let offset = format_u64(downloaded);
    Ok(
        TransferStart::Resume {
            state: TransferState { downloaded, total_size },
            range_header: concat3("bytes=", offset.as_str(), "-"),
        },
    )
}

/// The position after a chunk of `len` bytes: that many bytes further, but
/// never past `total_size`.
pub open spec fn advanced(downloaded: u64, total_size: u64, len: nat) -> u64 {
    if downloaded + len >= total_size {
        total_size
    } else {
        (downloaded + len) as u64
    }
}

/// The position after all of `chunks`, given by their lengths, in order.
pub open spec fn after_chunks(downloaded: u64, total_size: u64, chunks: Seq<nat>) -> u64
    decreases chunks.len(),
{
    if chunks.len() == 0 {
        downloaded
    } else {
        advanced(after_chunks(downloaded, total_size, chunks.drop_last()), total_size, chunks.last())
    }
}

/// The lengths of `chunks`, added up.
pub open spec fn sum_of_lengths(chunks: Seq<nat>) -> nat
    decreases chunks.len(),
{
    if chunks.len() == 0 {
        0
    } else {
        sum_of_lengths(chunks.drop_last()) + chunks.last()
    }
}

impl TransferState {
    /// Accounts for a chunk of `len` bytes that was appended to the file and
    /// returns the position to show.
    pub fn on_chunk(&mut self, len: usize) -> (position: u64)
        ensures
            final(self).total_size == old(self).total_size,
            final(self).downloaded == advanced(
                old(self).downloaded,
                old(self).total_size,
                len as nat,
            ),
            position == final(self).downloaded,
    {
        let room: u64 = if self.total_size >= self.downloaded {
            self.total_size - self.downloaded
        } else {
            0
        };
        if len as u64 >= room {
            self.downloaded = self.total_size;
        } else {
            self.downloaded = self.downloaded + len as u64;
        }
        self.downloaded
    }

    /// Whether every byte is accounted for.
    pub fn is_complete(&self) -> (r: bool)
        ensures
            r == (self.downloaded >= self.total_size),
    {
        self.downloaded >= self.total_size
    }
}

/// The position never moves back and never passes the total size; once the
/// chunks add up to what was missing, it is the total size.
pub proof fn lemma_after_chunks(downloaded: u64, total_size: u64, chunks: Seq<nat>)
    requires
        downloaded <= total_size,
    ensures
        downloaded <= after_chunks(downloaded, total_size, chunks) <= total_size,
        after_chunks(downloaded, total_size, chunks) == if downloaded + sum_of_lengths(chunks)
            >= total_size {
            total_size as int
        } else {
            downloaded + sum_of_lengths(chunks)
        },
    decreases chunks.len(),
{
    if chunks.len() > 0 {
        lemma_after_chunks(downloaded, total_size, chunks.drop_last());
    }
}

/// Resuming is idempotent. A transfer that was cut off with `local` on disk,
/// a prefix of `remote`, asks for the bytes from the end of `local` on; when
/// the server sends exactly those, the file on disk is `remote`, byte for
/// byte and nothing twice, and one more attempt finds nothing to do.
pub proof fn lemma_resume_is_idempotent(remote: Seq<u8>, local: Seq<u8>, received: Seq<u8>)
    requires
        remote.len() <= u64::MAX,
        local.len() < remote.len(),
        local == remote.take(local.len() as int),
        received == remote.skip(local.len() as int),
    ensures
        local + received == remote,
        advanced(local.len() as u64, remote.len() as u64, received.len()) == remote.len(),
        bytes_on_disk(Some((local + received).len() as u64)) >= remote.len(),
{
    assert(local + received =~= remote);
}

// ---------------------------------------------------------------------------
// Attempts and retries
// ---------------------------------------------------------------------------

/// A failed attempt is made again at most this many times.
pub const MAX_RETRIES: u32 = 3;

/// The pause before an attempt is made again, in seconds.
pub const RETRY_SECONDS: u64 = 5;

/// The retries that are left to a download.
#[derive(Debug, Clone, Copy, PartialEq, Eq, Structural)]
pub struct RetryState {
    pub retries_left: u32,
}

/// What follows an attempt.
#[derive(Debug)]
pub enum RetryDecision {
    /// The download ends with this outcome.
    Finish(Result<(), DownloadError>),
    /// Wait this many seconds, then make the attempt again from its start.
    RetryAfter { seconds: u64 },
}

/// Whether another attempt follows one that ended in `outcome` with
/// `retries_left` retries left: only after a failure worth a retry, and only
/// while a retry is left.
pub open spec fn retries(retries_left: u32, outcome: Result<(), DownloadError>) -> bool {
    retries_left > 0 && (outcome matches Err(e) && e.retryable())
}

impl RetryState {
    /// The state before the first attempt.
    pub fn new() -> (r: Self)
        ensures
            r.retries_left == MAX_RETRIES,
    {
        RetryState { retries_left: MAX_RETRIES }
    }

    /// Takes the outcome of an attempt and decides what follows.
    pub fn after_attempt(&mut self, outcome: Result<(), DownloadError>) -> (r: RetryDecision)
        ensures
            retries(old(self).retries_left, outcome) ==> r == (RetryDecision::RetryAfter {
                seconds: RETRY_SECONDS,
            }) && final(self).retries_left == old(self).retries_left - 1,
            !retries(old(self).retries_left, outcome) ==> r == RetryDecision::Finish(outcome)
                && final(self).retries_left == old(self).retries_left,
    {
        if self.retries_left == 0 {
            return RetryDecision::Finish(outcome);
        }
        let again = match &outcome {
            Err(e) => e.is_retryable(),
            Ok(_) => false,
        };
        if again {
            self.retries_left = self.retries_left - 1;
            RetryDecision::RetryAfter { seconds: RETRY_SECONDS }
        } else {
            RetryDecision::Finish(outcome)
        }
    }
}

/// The number of attempts that a download makes when its attempts end in
/// `outcomes`, one after the other, and `retries_left` retries are left
/// before the first of them.
pub open spec fn attempts_made(retries_left: u32, outcomes: Seq<Result<(), DownloadError>>) -> nat
    decreases outcomes.len(),
{
    if outcomes.len() == 0 {
        0
    } else if retries(retries_left, outcomes[0]) {
        1 + attempts_made((retries_left - 1) as u32, outcomes.drop_first())
    } else {
        1
    }
}

/// What a download ends with when its attempts end in `outcomes`, one after
/// the other: the outcome of the first attempt that is not made again.
/// `None` while every attempt so far is to be made again.
pub open spec fn download_outcome(retries_left: u32, outcomes: Seq<Result<(), DownloadError>>)
    -> Option<Result<(), DownloadError>>
    decreases outcomes.len(),
{
    if outcomes.len() == 0 {
        None
    } else if retries(retries_left, outcomes[0]) {
        download_outcome((retries_left - 1) as u32, outcomes.drop_first())
    } else {
        Some(outcomes[0])
    }
}

/// A download makes at most one attempt more than it has retries, and what
/// it ends with is the outcome of its last attempt, unchanged.
pub proof fn lemma_attempts_are_bounded(retries_left: u32, outcomes: Seq<Result<(), DownloadError>>)
    ensures
        attempts_made(retries_left, outcomes) <= retries_left + 1,
        attempts_made(retries_left, outcomes) <= outcomes.len(),
        outcomes.len() > 0 ==> attempts_made(retries_left, outcomes) >= 1,
        download_outcome(retries_left, outcomes) matches Some(last) ==> last
            == outcomes[attempts_made(retries_left, outcomes) - 1],
        outcomes.len() > retries_left ==> download_outcome(retries_left, outcomes) is Some,
    decreases outcomes.len(),
{
    if outcomes.len() > 0 && retries(retries_left, outcomes[0]) {
        let rest = outcomes.drop_first();
        lemma_attempts_are_bounded((retries_left - 1) as u32, rest);
        let n = attempts_made((retries_left - 1) as u32, rest);
        if download_outcome((retries_left - 1) as u32, rest) is Some {
            assert(rest[n - 1] == outcomes[n as int]);
        }
    }
}

/// When the first `k` attempts fail in a way worth a retry, `k` no more than
/// the retries left, the attempt after them is made, and unless that one is
/// made again in turn the download ends with its outcome. So with three
/// retries, three such failures and a success make four attempts and a
/// success.
pub proof fn lemma_retry_reaches(retries_left: u32, outcomes: Seq<Result<(), DownloadError>>, k: nat)
    requires
        k <= retries_left,
        k < outcomes.len(),
        forall|i: int| 0 <= i < k ==> (#[trigger] outcomes[i] matches Err(e) && e.retryable()),
        !retries((retries_left - k) as u32, outcomes[k as int]),
    ensures
        attempts_made(retries_left, outcomes) == k + 1,
        download_outcome(retries_left, outcomes) == Some(outcomes[k as int]),
    decreases k,
{
    if k > 0 {
        let rest = outcomes.drop_first();
        assert(retries(retries_left, outcomes[0]));
        assert forall|i: int| 0 <= i < k - 1 implies (#[trigger] rest[i] matches Err(e)
            && e.retryable()) by {
            assert(rest[i] == outcomes[i + 1]);
        }
        assert(rest[k - 1] == outcomes[k as int]);
        lemma_retry_reaches((retries_left - 1) as u32, rest, (k - 1) as nat);
    }
}

/// When every attempt fails in a way worth a retry, the download stops
/// after one attempt more than it has retries, and ends with the error of
/// that last attempt.
pub proof fn lemma_retry_budget_ends(retries_left: u32, outcomes: Seq<Result<(), DownloadError>>)
    requires
        outcomes.len() > retries_left,
        forall|i: int|
            0 <= i < outcomes.len() ==> (#[trigger] outcomes[i] matches Err(e) && e.retryable()),
    ensures
        attempts_made(retries_left, outcomes) == retries_left + 1,
        download_outcome(retries_left, outcomes) == Some(outcomes[retries_left as int]),
        outcomes[retries_left as int] is Err,
{
    lemma_retry_reaches(retries_left, outcomes, retries_left as nat);
}

// ---------------------------------------------------------------------------
// What is shown
// ---------------------------------------------------------------------------

/// The line that tells of a coming retry.
pub fn retry_notice(seconds: u64) -> (r: String)
    ensures
        r@ == "  Will retry in "@ + decimal_text(seconds as nat) + " seconds..."@,
{
    let n = format_u64(seconds);
    concat3("  Will retry in ", n.as_str(), " seconds...")
}

/// The caption of the progress indicator.
pub fn progress_caption(title: &str) -> (r: String)
    ensures
        r@ == "Downloading "@ + title@,
{
    concat2("Downloading ", title)
}

/// The line that confirms a finished download.
pub fn done_notice(title: &str) -> (r: String)
    ensures
        r@ == "  Downloaded "@ + title@,
{
    concat2("  Downloaded ", title)
}

} // verus!

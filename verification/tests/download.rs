use humble_cli::download::{
    done_notice, progress_caption, retry_notice, start_transfer, DownloadError, HttpStatus,
    NetworkFailure, RetryDecision, RetryState, TransferStart, TransferState, MAX_RETRIES,
    RETRY_SECONDS,
};

fn connect_timeout() -> DownloadError {
    DownloadError::Network(NetworkFailure {
        connect: true,
        timeout: true,
        status: None,
        message: "connection timed out".to_string(),
    })
}

fn not_found() -> DownloadError {
    DownloadError::Network(NetworkFailure {
        connect: false,
        timeout: false,
        status: Some(HttpStatus {
            code: 404,
            text: "404 Not Found".to_string(),
        }),
        message: "HTTP status client error (404 Not Found)".to_string(),
    })
}

/// Runs a download whose attempts end as `outcomes` say, and returns the
/// number of attempts made, the pauses taken and what the download ended with.
fn run(outcomes: Vec<Result<(), DownloadError>>) -> (usize, Vec<u64>, Result<(), DownloadError>) {
    let mut state = RetryState::new();
    let mut attempts = 0;
    let mut pauses = vec![];
    for outcome in outcomes {
        attempts += 1;
        match state.after_attempt(outcome) {
            RetryDecision::RetryAfter { seconds } => pauses.push(seconds),
            RetryDecision::Finish(result) => return (attempts, pauses, result),
        }
    }
    panic!("the download asked for more attempts than were given");
}

#[test]
fn retry_until_the_fourth_attempt_succeeds() {
    let (attempts, pauses, result) = run(vec![
        Err(connect_timeout()),
        Err(connect_timeout()),
        Err(connect_timeout()),
        Ok(()),
    ]);
    assert_eq!(attempts, 4);
    assert_eq!(pauses, vec![5, 5, 5]);
    assert!(result.is_ok());
}

#[test]
fn fourth_failure_is_returned() {
    let (attempts, pauses, result) = run(vec![
        Err(connect_timeout()),
        Err(connect_timeout()),
        Err(connect_timeout()),
        Err(connect_timeout()),
        Ok(()),
    ]);
    assert_eq!(attempts, 4);
    assert_eq!(pauses.len(), 3);
    match result {
        Err(DownloadError::Network(failure)) => {
            assert!(failure.connect && failure.timeout);
            assert_eq!(failure.message, "connection timed out");
        }
        other => panic!("unexpected result {:?}", other),
    }
}

#[test]
fn other_failures_are_not_retried() {
    let (attempts, pauses, result) = run(vec![Err(not_found()), Ok(())]);
    assert_eq!(attempts, 1);
    assert!(pauses.is_empty());
    assert!(matches!(result, Err(DownloadError::Network(_))));

    let (attempts, _, result) = run(vec![Err(DownloadError::IO("disk full".into()))]);
    assert_eq!(attempts, 1);
    assert!(matches!(result, Err(DownloadError::IO(_))));

    let (attempts, _, result) = run(vec![
        Err(connect_timeout()),
        Err(DownloadError::Generic("no length".into())),
    ]);
    assert_eq!(attempts, 2);
    assert!(matches!(result, Err(DownloadError::Generic(_))));

    let (attempts, _, result) = run(vec![Ok(())]);
    assert_eq!(attempts, 1);
    assert!(result.is_ok());
}

#[test]
fn retry_constants() {
    assert_eq!(MAX_RETRIES, 3);
    assert_eq!(RETRY_SECONDS, 5);
    assert_eq!(RetryState::new().retries_left, 3);
}

#[test]
fn retryable_errors() {
    assert!(connect_timeout().is_retryable());
    assert!(!not_found().is_retryable());
    assert!(!DownloadError::IO("x".into()).is_retryable());
    assert!(!DownloadError::Generic("x".into()).is_retryable());
    let timeout_only = DownloadError::Network(NetworkFailure {
        connect: false,
        timeout: true,
        status: None,
        message: "timed out".into(),
    });
    assert!(timeout_only.is_retryable());
    assert_eq!(timeout_only.to_string(), "timed out");
    assert_eq!(DownloadError::Generic("g".into()).to_string(), "g");
    assert_eq!(DownloadError::IO("io".into()).to_string(), "io");
}

#[test]
fn nothing_to_do_for_a_complete_file() {
    assert!(matches!(
        start_transfer(Some(100), Some(100), "https://x/y"),
        Ok(TransferStart::AlreadyComplete)
    ));
    assert!(matches!(
        start_transfer(Some(150), Some(100), "https://x/y"),
        Ok(TransferStart::AlreadyComplete)
    ));
    assert!(matches!(
        start_transfer(None, Some(0), "https://x/y"),
        Ok(TransferStart::AlreadyComplete)
    ));
}

#[test]
fn transfer_resumes_at_the_end_of_the_local_file() {
    match start_transfer(Some(40), Some(100), "https://x/y") {
        Ok(TransferStart::Resume {
            state,
            range_header,
        }) => {
            assert_eq!(
                state,
                TransferState {
                    downloaded: 40,
                    total_size: 100
                }
            );
            assert_eq!(range_header, "bytes=40-");
        }
        other => panic!("unexpected start {:?}", other),
    }
    match start_transfer(None, Some(1234567890123), "https://x/y") {
        Ok(TransferStart::Resume {
            state,
            range_header,
        }) => {
            assert_eq!(state.downloaded, 0);
            assert_eq!(state.total_size, 1234567890123);
            assert_eq!(range_header, "bytes=0-");
        }
        other => panic!("unexpected start {:?}", other),
    }
}

#[test]
fn missing_content_length_is_an_error() {
    match start_transfer(Some(40), None, "https://x/y") {
        Err(DownloadError::Generic(message)) => {
            assert_eq!(message, "Failed to get content length from 'https://x/y'")
        }
        other => panic!("unexpected start {:?}", other),
    }
}

#[test]
fn resume_is_idempotent() {
    // A first attempt is cut off after 30 of 100 bytes.
    let mut state = match start_transfer(None, Some(100), "u").unwrap() {
        TransferStart::Resume { state, .. } => state,
        other => panic!("unexpected start {:?}", other),
    };
    assert_eq!(state.on_chunk(10), 10);
    assert_eq!(state.on_chunk(20), 30);
    assert!(!state.is_complete());
    let on_disk = state.downloaded;

    // The second attempt asks for the missing suffix only.
    let (mut state, header) = match start_transfer(Some(on_disk), Some(100), "u").unwrap() {
        TransferStart::Resume {
            state,
            range_header,
        } => (state, range_header),
        other => panic!("unexpected start {:?}", other),
    };
    assert_eq!(header, "bytes=30-");
    let mut written = on_disk;
    for chunk in [25usize, 25, 20] {
        written += chunk as u64;
        state.on_chunk(chunk);
    }
    assert_eq!(written, 100);
    assert_eq!(state.downloaded, 100);
    assert!(state.is_complete());

    // A third attempt finds nothing to do.
    assert!(matches!(
        start_transfer(Some(written), Some(100), "u"),
        Ok(TransferStart::AlreadyComplete)
    ));
}

#[test]
fn position_never_passes_the_total() {
    let mut state = TransferState {
        downloaded: 90,
        total_size: 100,
    };
    assert_eq!(state.on_chunk(50), 100);
    assert_eq!(state.on_chunk(usize::MAX), 100);
    let mut state = TransferState {
        downloaded: u64::MAX - 1,
        total_size: u64::MAX,
    };
    assert_eq!(state.on_chunk(usize::MAX), u64::MAX);
    let mut state = TransferState {
        downloaded: 0,
        total_size: 10,
    };
    assert_eq!(state.on_chunk(0), 0);
}

#[test]
fn notices() {
    assert_eq!(retry_notice(5), "  Will retry in 5 seconds...");
    assert_eq!(progress_caption("a.epub"), "Downloading a.epub");
    assert_eq!(done_notice("a.epub"), "  Downloaded a.epub");
}

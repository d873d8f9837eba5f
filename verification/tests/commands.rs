use humble_cli::commands::{
    auth, bulk_format, find_key, found_notice, handle_http_errors, parse_bundle_line,
    parse_bundle_list, retain_by_claim, validate_fields, wants_keys_only, BatchReport,
};
use humble_cli::config::{read_failure_message, Config, CONFIG_FILE_NAME};
use humble_cli::download::{HttpStatus, NetworkFailure};
use humble_cli::humble_api::ApiError;
use humble_cli::models::{
    Bundle, BundleDetails, ClaimStatus, DownloadInfo, DownloadUrl, KeyEntry, KeyList, Product,
    ProductDownload, Timestamp,
};

fn strings(items: &[&str]) -> Vec<String> {
    items.iter().map(|s| s.to_string()).collect()
}

fn bundle(key: &str, name: &str, size: u64, keys: Option<Vec<bool>>) -> Bundle {
    Bundle {
        gamekey: key.to_string(),
        created: Timestamp {
            seconds: 0,
            nanoseconds: 0,
        },
        claimed: false,
        all_tpks: match keys {
            None => KeyList::Missing,
            Some(flags) => KeyList::Listed(
                flags
                    .into_iter()
                    .map(|redeemed| KeyEntry {
                        has_redeemed_key: redeemed,
                        human_name: Some("Key".to_string()),
                    })
                    .collect(),
            ),
        },
        details: BundleDetails {
            machine_name: name.to_lowercase(),
            human_name: name.to_string(),
        },
        products: vec![Product {
            machine_name: "p".into(),
            human_name: "P".into(),
            product_details_url: String::new(),
            downloads: vec![ProductDownload {
                items: vec![DownloadInfo {
                    md5: String::new(),
                    format: "epub".into(),
                    file_size: size,
                    url: DownloadUrl {
                        web: "https://x/y".into(),
                        bittorrent: "https://x/y.torrent".into(),
                    },
                }],
            }],
        }],
    }
}

fn status_error(code: u16, text: &str) -> ApiError {
    ApiError::NetworkError(NetworkFailure {
        connect: false,
        timeout: false,
        status: Some(HttpStatus {
            code,
            text: text.to_string(),
        }),
        message: format!("HTTP status error ({})", text),
    })
}

#[test]
fn auth_keeps_the_session_key() {
    assert_eq!(auth("secret key").session_key, "secret key");
    assert_eq!(auth("secret").file_contents(), "secret");
}

#[test]
fn config_is_read_without_trailing_white_space() {
    assert_eq!(Config::from_file_contents("abc\n").session_key, "abc");
    assert_eq!(Config::from_file_contents("  abc \r\n\t").session_key, "  abc");
    assert_eq!(Config::from_file_contents("").session_key, "");
    assert_eq!(CONFIG_FILE_NAME, ".humble-cli-key");
    assert_eq!(
        read_failure_message("/home/u/.humble-cli-key"),
        "failed to read the session key from `/home/u/.humble-cli-key` file"
    );
}

#[test]
fn http_errors_are_put_in_words() {
    assert_eq!(handle_http_errors(Ok::<u8, ApiError>(7)), Ok(7));
    assert_eq!(
        handle_http_errors::<u8>(Err(status_error(401, "401 Unauthorized"))),
        Err("Unauthorized request (401). Is the session key correct?".to_string())
    );
    assert_eq!(
        handle_http_errors::<u8>(Err(status_error(404, "404 Not Found"))),
        Err("Bundle not found (404). Is the bundle key correct?".to_string())
    );
    assert_eq!(
        handle_http_errors::<u8>(Err(status_error(500, "500 Internal Server Error"))),
        Err("failed with status: 500 Internal Server Error".to_string())
    );
    let no_status = ApiError::NetworkError(NetworkFailure {
        connect: true,
        timeout: false,
        status: None,
        message: "connection refused".into(),
    });
    assert_eq!(
        handle_http_errors::<u8>(Err(no_status)),
        Err("failed: connection refused".to_string())
    );
    assert_eq!(
        handle_http_errors::<u8>(Err(ApiError::DeserializeError("bad json".into()))),
        Err("failed: bad json".to_string())
    );
    assert_eq!(
        handle_http_errors::<u8>(Err(ApiError::BundleNotFound)),
        Err("failed: cannot find any data".to_string())
    );
}

#[test]
fn key_lookup() {
    let keys = strings(&["1aaa", "1aXXX", "2bbbb"]);
    let found = find_key(keys.clone(), "2B");
    assert_eq!(found.key, Some("2bbbb".to_string()));
    assert!(found.notices.is_empty());

    let none = find_key(keys.clone(), "3c");
    assert_eq!(none.key, None);
    assert_eq!(none.notices, strings(&["No bundle matches '3c'"]));

    let several = find_key(keys, "1a");
    assert_eq!(several.key, None);
    assert_eq!(
        several.notices,
        strings(&["More than one bundle matches '1a':", "1aaa", "1aXXX"])
    );
}

#[test]
fn fields_are_validated() {
    assert!(validate_fields(&strings(&[])));
    assert!(validate_fields(&strings(&["key", "NAME", "Size", "claimed"])));
    assert!(!validate_fields(&strings(&["key", "price"])));
    assert!(wants_keys_only(&strings(&["key"]), "all"));
    assert!(!wants_keys_only(&strings(&["key"]), "yes"));
    assert!(!wants_keys_only(&strings(&["name"]), "all"));
    assert!(!wants_keys_only(&strings(&["key", "key"]), "all"));
}

#[test]
fn bulk_listing() {
    let bundles = vec![
        bundle("k1", "First", 3 * 1024, Some(vec![true])),
        bundle("k2", "Second", 1, None),
    ];
    assert_eq!(
        bulk_format(&strings(&["key", "name", "size", "claimed"]), &bundles),
        Ok(strings(&["k1,First,3.00 KiB,Yes", "k2,Second,1 B,-"]))
    );
    // The columns keep their order whatever the order of the fields.
    assert_eq!(
        bulk_format(&strings(&["claimed", "key"]), &bundles),
        Ok(strings(&["k1,Yes", "k2,-"]))
    );
    assert_eq!(
        bulk_format(&strings(&["key", "colour"]), &bundles),
        Err("invalid field in fields: key,colour".to_string())
    );
    assert_eq!(found_notice(2), "2 bundle(s) found.\n");
}

#[test]
fn bundles_are_filtered_by_claim_status() {
    let all = || {
        vec![
            bundle("yes", "Y", 1, Some(vec![true, true])),
            bundle("no", "N", 1, Some(vec![true, false])),
            bundle("none", "-", 1, None),
            bundle("empty", "E", 1, Some(vec![])),
        ]
    };
    let keys = |bundles: Vec<Bundle>| -> Vec<String> { bundles.into_iter().map(|b| b.gamekey).collect() };
    assert_eq!(all()[0].claim_status(), ClaimStatus::Yes);
    assert_eq!(all()[1].claim_status(), ClaimStatus::No);
    assert_eq!(all()[2].claim_status(), ClaimStatus::NotAvailable);
    assert_eq!(all()[3].claim_status(), ClaimStatus::NotAvailable);
    assert_eq!(
        keys(retain_by_claim(all(), "all")),
        strings(&["yes", "no", "none", "empty"])
    );
    assert_eq!(keys(retain_by_claim(all(), "yes")), strings(&["yes"]));
    assert_eq!(keys(retain_by_claim(all(), "no")), strings(&["no"]));
}

#[test]
fn bundle_list_is_read_line_by_line() {
    let entries = parse_bundle_list("k1,First bundle,3 KiB\nk2,Second\r\nk3\n");
    assert_eq!(entries.len(), 3);
    assert_eq!(entries[0].key, "k1");
    assert_eq!(entries[0].name, Some("First bundle".to_string()));
    assert_eq!(entries[1].key, "k2");
    assert_eq!(entries[1].name, Some("Second".to_string()));
    assert_eq!(entries[2].key, "k3");
    assert_eq!(entries[2].name, None);
    // A line without a name is reported under its key.
    assert_eq!(entries[0].display_name(), "First bundle");
    assert_eq!(entries[2].display_name(), "k3");
    assert!(parse_bundle_list("").is_empty());
    let empty = parse_bundle_line("");
    assert_eq!(empty.key, "");
    assert_eq!(empty.name, None);
}

#[test]
fn batch_goes_on_after_a_failure() {
    let mut report = BatchReport::new();
    report.record("First", Ok(()));
    report.record("Second", Err("no network".to_string()));
    report.record("Third", Ok(()));
    report.record("Fourth", Err("disk full".to_string()));
    assert_eq!(
        report.failures,
        vec![
            ("Second".to_string(), "no network".to_string()),
            ("Fourth".to_string(), "disk full".to_string())
        ]
    );
    assert_eq!(
        report.lines(),
        strings(&[
            "Error handeling: Second",
            "Error: no network",
            "Error handeling: Fourth",
            "Error: disk full"
        ])
    );
    assert!(BatchReport::new().lines().is_empty());
}

#[test]
fn unreadable_keys_are_kept_until_they_are_asked_for() {
    let mut odd = bundle("odd", "Odd", 1, None);
    odd.all_tpks = KeyList::Unreadable;
    assert!(!odd.has_readable_keys());
    assert!(bundle("k", "K", 1, None).has_readable_keys());
    assert!(bundle("k", "K", 1, Some(vec![])).has_readable_keys());
    // Listing every bundle, or columns other than the claim, reads no keys.
    let kept = retain_by_claim(vec![odd], "all");
    assert_eq!(kept.len(), 1);
    assert_eq!(
        bulk_format(&strings(&["key", "name"]), &kept),
        Ok(strings(&["odd,Odd"]))
    );
}

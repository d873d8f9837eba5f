use humble_cli::listing::{
    bundles_table, choices_table, keys_table, layout_of, products_table, purchase_line,
    search_bundles, search_table, total_size_line, Align, TableKind,
};
use humble_cli::models::{
    Bundle, BundleDetails, ChoicePeriod, ClaimStatus, ContentChoiceData, ContentChoiceOptions,
    DownloadInfo, DownloadUrl, GameData, HumbleChoice, KeyEntry, KeyList, MatchMode, Product,
    ProductDownload, Timestamp, Tpkd,
};
use humble_cli::text::text_less;
use humble_cli::util::{extract_filename_from_url, file_name_from_segments, str_vectors_intersect};

fn strings(items: &[&str]) -> Vec<String> {
    items.iter().map(|s| s.to_string()).collect()
}

fn product(name: &str, files: &[(&str, u64)]) -> Product {
    Product {
        machine_name: String::new(),
        human_name: name.to_string(),
        product_details_url: String::new(),
        downloads: vec![ProductDownload {
            items: files
                .iter()
                .map(|(format, size)| DownloadInfo {
                    md5: String::new(),
                    format: format.to_string(),
                    file_size: *size,
                    url: DownloadUrl {
                        web: String::new(),
                        bittorrent: String::new(),
                    },
                })
                .collect(),
        }],
    }
}

fn bundle(key: &str, name: &str, products: Vec<Product>, keys: Option<Vec<KeyEntry>>) -> Bundle {
    let keys = match keys {
        Some(entries) => KeyList::Listed(entries),
        None => KeyList::Missing,
    };
    Bundle {
        gamekey: key.to_string(),
        created: Timestamp {
            seconds: 0,
            nanoseconds: 0,
        },
        claimed: false,
        all_tpks: keys,
        details: BundleDetails {
            machine_name: String::new(),
            human_name: name.to_string(),
        },
        products,
    }
}

fn tpkd(name: &str, gamekey: Option<&str>, redeemed: Option<&str>) -> Tpkd {
    Tpkd {
        gamekey: gamekey.map(|s| s.to_string()),
        human_name: name.to_string(),
        redeemed_key_val: redeemed.map(|s| s.to_string()),
    }
}

#[test]
fn filename_extraction() {
    assert_eq!(
        extract_filename_from_url("https://dl.example.com/book.epub?t=1"),
        Some("book.epub".to_string())
    );
    assert_eq!(extract_filename_from_url("https://example.com/"), None);
    assert_eq!(extract_filename_from_url("https://example.com"), None);
    assert_eq!(extract_filename_from_url("not a url"), None);
    assert_eq!(extract_filename_from_url("data:text/plain,Hello"), None);
    assert_eq!(
        extract_filename_from_url("https://example.com/a/b/c.pdf#frag"),
        Some("c.pdf".to_string())
    );
    assert_eq!(extract_filename_from_url("https://example.com/a/b/"), None);
    // The name is taken as the address spells it.
    assert_eq!(
        extract_filename_from_url("https://example.com/a%20b.pdf"),
        Some("a%20b.pdf".to_string())
    );
    assert_eq!(file_name_from_segments(None), None);
    assert_eq!(file_name_from_segments(Some(vec![])), None);
    assert_eq!(
        file_name_from_segments(Some(strings(&["a", "b"]))),
        Some("b".to_string())
    );
    assert_eq!(file_name_from_segments(Some(strings(&["a", ""]))), None);
}

#[test]
fn formats_match_whatever_their_case() {
    assert!(str_vectors_intersect(&["EPUB"], &["epub"]));
    assert!(str_vectors_intersect(&["pdf", "Epub"], &["EPUB", "mobi"]));
    assert!(!str_vectors_intersect(&["EPUB"], &["pdf"]));
}

#[test]
fn tables() {
    let bundles = vec![
        bundle(
            "k1",
            "Books",
            vec![
                product("Rust Book", &[("epub", 1024), ("pdf", 2048)]),
                product("Go Book", &[]),
            ],
            Some(vec![
                KeyEntry {
                    has_redeemed_key: true,
                    human_name: Some("Game".into()),
                },
                KeyEntry {
                    has_redeemed_key: false,
                    human_name: None,
                },
            ]),
        ),
        bundle("k2", "Empty", vec![], None),
    ];
    assert_eq!(
        bundles_table(&bundles),
        vec![
            strings(&["Key", "Name", "Size", "Claimed"]),
            strings(&["k1", "Books", "3.00 KiB", "No"]),
            strings(&["k2", "Empty", "0 B", "-"]),
        ]
    );
    assert_eq!(bundles[0].total_size(), 3072);
    assert_eq!(bundles[0].checked_total_size(), Some(3072));
    assert_eq!(
        products_table(&bundles[0].products),
        vec![
            strings(&["#", "Sub-item", "Format", "Total Size"]),
            strings(&["1", "Rust Book", "epub, pdf", "3.00 KiB"]),
            strings(&["2", "Go Book", "", "0 B"]),
        ]
    );
    let keys = bundles[0].product_keys();
    assert_eq!(keys.len(), 2);
    assert_eq!(keys[1].human_name, "");
    let (rows, all_redeemed) = keys_table(&keys);
    assert_eq!(
        rows,
        vec![
            strings(&["#", "Key Name", "Redeemed"]),
            strings(&["1", "Game", "Yes"]),
            strings(&["2", "", "No"]),
        ]
    );
    assert!(!all_redeemed);
    let (rows, all_redeemed) = keys_table(&bundles[1].product_keys());
    assert_eq!(rows.len(), 1);
    assert!(all_redeemed);
}

#[test]
fn searching() {
    let bundles = vec![
        bundle(
            "k1",
            "Books",
            vec![
                product("Programming in Rust second edition", &[]),
                product("Python programming", &[]),
            ],
            None,
        ),
        bundle("k2", "More", vec![product("Rust in action", &[])], None),
    ];
    let hits = search_bundles(&bundles, "RUST Python", MatchMode::Any);
    let names: Vec<&str> = hits.iter().map(|h| h.product_name.as_str()).collect();
    assert_eq!(
        names,
        vec![
            "Programming in Rust second edition",
            "Python programming",
            "Rust in action"
        ]
    );
    let hits = search_bundles(&bundles, "rust in", MatchMode::All);
    assert_eq!(
        search_table(&hits),
        vec![
            strings(&["Key", "Name", "Sub Item"]),
            strings(&["k1", "Books", "Programming in Rust second edition"]),
            strings(&["k2", "More", "Rust in action"]),
        ]
    );
    assert!(search_bundles(&bundles, "java", MatchMode::Any).is_empty());
}

#[test]
fn choices() {
    let choice = HumbleChoice {
        options: ContentChoiceOptions {
            data: ContentChoiceData {
                game_data: vec![
                    (
                        "alpha".to_string(),
                        GameData {
                            title: "Alpha".into(),
                            tpkds: vec![
                                tpkd("Alpha Steam", Some("g"), Some("KEY")),
                                tpkd("Alpha GOG", Some("g"), None),
                            ],
                        },
                    ),
                    (
                        "beta".to_string(),
                        GameData {
                            title: "Beta".into(),
                            tpkds: vec![tpkd("Beta", None, None)],
                        },
                    ),
                ],
            },
            gamekey: None,
            is_active_content: true,
            title: "January".into(),
        },
    };
    let (rows, all_redeemed) = choices_table(&choice);
    assert_eq!(
        rows,
        vec![
            strings(&["#", "Title", "Redeemed"]),
            strings(&["1", "Alpha Steam", "Yes"]),
            strings(&["2", "Alpha GOG", "No"]),
            strings(&["3", "Beta", "-"]),
        ]
    );
    assert!(!all_redeemed);
    assert_eq!(
        tpkd("x", Some("g"), Some("k")).claim_status(),
        ClaimStatus::Yes
    );
    assert_eq!(tpkd("x", Some("g"), None).claim_status(), ClaimStatus::No);
    assert_eq!(
        tpkd("x", None, Some("k")).claim_status(),
        ClaimStatus::NotAvailable
    );
}

#[test]
fn periods_and_modes() {
    assert_eq!(ChoicePeriod::try_from("current").unwrap().to_string(), "home");
    assert_eq!(
        ChoicePeriod::try_from("March-2023").unwrap().to_string(),
        "march-2023"
    );
    let err = |text: &str| ChoicePeriod::try_from(text).unwrap_err();
    assert_eq!(err("invalid"), "invalid format. expected {month name}-{year}");
    assert_eq!(err("a-b-c"), "invalid format. expected {month name}-{year}");
    assert_eq!(err("foobar-2023"), "invalid month: foobar");
    assert_eq!(
        err("march-12000"),
        "years out of 2018-2030 range are not supported"
    );
    assert_eq!(
        err("march-2017"),
        "years out of 2018-2030 range are not supported"
    );
    assert_eq!(
        err("march-99999"),
        "invalid year value: number too large to fit in target type"
    );
    assert_eq!(
        err("march-"),
        "invalid year value: cannot parse integer from empty string"
    );
    assert_eq!(
        err("march-20x3"),
        "invalid year value: invalid digit found in string"
    );
    assert!(ChoicePeriod::try_from("december-2018").is_ok());
    assert!(ChoicePeriod::try_from("january-2030").is_ok());
    assert!(ChoicePeriod::try_from("january-2031").is_err());

    assert_eq!(MatchMode::try_from("ALL"), Ok(MatchMode::All));
    assert_eq!(MatchMode::try_from("any"), Ok(MatchMode::Any));
    assert_eq!(
        MatchMode::try_from("Some"),
        Err("invalid match mode: Some".to_string())
    );
    assert_eq!(ClaimStatus::Yes.to_string(), "Yes");
    assert_eq!(ClaimStatus::No.to_string(), "No");
    assert_eq!(ClaimStatus::NotAvailable.to_string(), "-");
}

#[test]
fn purchase_date() {
    let created = Timestamp {
        seconds: 1_655_031_034,
        nanoseconds: 5,
    };
    assert_eq!(
        purchase_line(&created),
        Some("Purchased    : 2022-06-12".to_string())
    );
    let epoch = Timestamp {
        seconds: -1,
        nanoseconds: 0,
    };
    assert_eq!(
        purchase_line(&epoch),
        Some("Purchased    : 1969-12-31".to_string())
    );
    let never = Timestamp {
        seconds: i64::MAX,
        nanoseconds: 0,
    };
    assert_eq!(purchase_line(&never), None);
    assert_eq!(total_size_line("3.00 KiB"), "Total size   : 3.00 KiB");
}

#[test]
fn games_are_kept_in_the_order_of_their_identifiers() {
    let game = |title: &str| GameData {
        title: title.to_string(),
        tpkds: vec![],
    };
    let mut data = ContentChoiceData::new();
    assert!(data.insert("m".into(), game("M")).is_none());
    assert!(data.insert("a".into(), game("A")).is_none());
    assert!(data.insert("z".into(), game("Z")).is_none());
    assert!(data.insert("ma".into(), game("MA")).is_none());
    assert!(data.insert("".into(), game("nothing")).is_none());
    let replaced = data.insert("m".into(), game("M2"));
    assert_eq!(replaced.map(|g| g.title), Some("M".to_string()));
    let ids: Vec<&str> = data.game_data.iter().map(|(id, _)| id.as_str()).collect();
    assert_eq!(ids, vec!["", "a", "m", "ma", "z"]);
    assert_eq!(data.game_data[2].1.title, "M2");
    for (a, b) in [("a", "b"), ("a", "ab"), ("", "a"), ("é", "z"), ("Z", "a"), ("a", "a")] {
        assert_eq!(text_less(a, b), a < b, "{:?} {:?}", a, b);
        assert_eq!(text_less(b, a), b < a, "{:?} {:?}", b, a);
    }
}

#[test]
fn table_layouts() {
    let bundles = layout_of(TableKind::Bundles);
    assert_eq!(bundles.alignments, vec![(1, Align::Left), (2, Align::Right)]);
    assert!(!bundles.merge_vertical);
    let products = layout_of(TableKind::Products);
    assert_eq!(
        products.alignments,
        vec![
            (0, Align::Right),
            (1, Align::Left),
            (2, Align::Left),
            (3, Align::Right)
        ]
    );
    let keys = layout_of(TableKind::Keys);
    assert_eq!(
        keys.alignments,
        vec![(0, Align::Right), (1, Align::Left), (2, Align::Center)]
    );
    let hits = layout_of(TableKind::SearchHits);
    assert_eq!(hits.alignments, vec![(1, Align::Left), (2, Align::Left)]);
    assert!(hits.merge_vertical);
    let choices = layout_of(TableKind::Choices);
    assert_eq!(choices.alignments, vec![(0, Align::Right), (1, Align::Left)]);
    assert!(!choices.merge_vertical);
}

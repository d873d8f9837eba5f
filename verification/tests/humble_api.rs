use humble_cli::humble_api::{
    bundles_query, game_keys, key_chunks, single_block, sort_by_created, ApiError, HumbleApi,
    CHOICE_DATA_SELECTOR, CHUNK_SIZE, ORDERS_URL, ORDER_KEYS_URL,
};
use humble_cli::models::{Bundle, BundleDetails, GameKey, KeyList, Timestamp};

fn bundle(key: &str, seconds: i64, nanoseconds: u32) -> Bundle {
    Bundle {
        gamekey: key.to_string(),
        created: Timestamp {
            seconds,
            nanoseconds,
        },
        claimed: false,
        all_tpks: KeyList::Missing,
        details: BundleDetails {
            machine_name: String::new(),
            human_name: String::new(),
        },
        products: vec![],
    }
}

#[test]
fn addresses_and_cookie() {
    let api = HumbleApi::new("s3cr3t");
    assert_eq!(api.cookie(), "_simpleauth_sess=s3cr3t");
    assert_eq!(
        api.bundle_url("abc"),
        "https://www.humblebundle.com/api/v1/order/abc?all_tpkds=true"
    );
    assert_eq!(
        api.choices_url("january-2023"),
        "https://www.humblebundle.com/membership/january-2023"
    );
    assert_eq!(
        ORDER_KEYS_URL,
        "https://www.humblebundle.com/api/v1/user/order"
    );
    assert_eq!(ORDERS_URL, "https://www.humblebundle.com/api/v1/orders");
    assert_eq!(CHUNK_SIZE, 10);
}

#[test]
fn keys_are_asked_for_ten_at_a_time() {
    let keys: Vec<String> = (0..23).map(|i| format!("k{}", i)).collect();
    let chunks = key_chunks(&keys);
    assert_eq!(chunks.len(), 3);
    assert_eq!(chunks[0], keys[0..10].to_vec());
    assert_eq!(chunks[1], keys[10..20].to_vec());
    assert_eq!(chunks[2], keys[20..23].to_vec());
    assert!(key_chunks(&vec![]).is_empty());
    assert_eq!(key_chunks(&keys[0..10].to_vec()).len(), 1);
    assert_eq!(key_chunks(&keys[0..11].to_vec()).len(), 2);

    assert_eq!(
        bundles_query(&keys[0..2].to_vec()),
        vec![
            ("all_tpkds".to_string(), "true".to_string()),
            ("gamekeys".to_string(), "k0".to_string()),
            ("gamekeys".to_string(), "k1".to_string()),
        ]
    );
    assert_eq!(
        game_keys(vec![
            GameKey {
                gamekey: "a".into()
            },
            GameKey {
                gamekey: "b".into()
            }
        ]),
        vec!["a".to_string(), "b".to_string()]
    );
}

#[test]
fn bundles_are_sorted_by_creation() {
    let sorted = sort_by_created(vec![
        bundle("c", 30, 0),
        bundle("a1", 10, 5),
        bundle("b", 20, 0),
        bundle("a0", 10, 0),
        bundle("a1-again", 10, 5),
        bundle("old", -5, 0),
    ]);
    let keys: Vec<&str> = sorted.iter().map(|b| b.gamekey.as_str()).collect();
    assert_eq!(keys, vec!["old", "a0", "a1", "a1-again", "b", "c"]);
    assert!(sort_by_created(vec![]).is_empty());
}

#[test]
fn choice_data_is_found_in_the_page() {
    let api = HumbleApi::new("k");
    let page = "<html><head><script id=\"webpack-monthly-product-data\" \
                type=\"application/json\">{\"a\": [1, 2]}</script></head>\
                <body><script id=\"other\">x</script></body></html>";
    assert_eq!(
        api.parse_bundle_choices(page).unwrap(),
        "{\"a\": [1, 2]}"
    );
    let page = "<script id=\"webpack-subscriber-hub-data\">{}</script>";
    assert_eq!(api.parse_bundle_choices(page).unwrap(), "{}");

    let none = "<html><body><p>nothing here</p></body></html>";
    assert!(matches!(
        api.parse_bundle_choices(none),
        Err(ApiError::BundleNotFound)
    ));
    let two = "<script id=\"webpack-subscriber-hub-data\">1</script>\
               <script id=\"webpack-monthly-product-data\">2</script>";
    assert!(matches!(
        api.parse_bundle_choices(two),
        Err(ApiError::BundleNotFound)
    ));
    assert!(CHOICE_DATA_SELECTOR.contains("webpack-subscriber-hub-data"));
}

#[test]
fn single_block_is_the_only_block() {
    assert_eq!(single_block(Some(vec!["x".to_string()])).unwrap(), "x");
    assert!(single_block(Some(vec![])).is_err());
    assert!(single_block(Some(vec!["x".to_string(), "y".to_string()])).is_err());
    assert!(single_block(None).is_err());
    assert_eq!(ApiError::BundleNotFound.to_string(), "cannot find any data");
    assert_eq!(ApiError::DeserializeError("e".into()).to_string(), "e");
}

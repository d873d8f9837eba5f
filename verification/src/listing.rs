//! The tables and search results that the commands show, as rows of text.

use crate::commands::status_of;
use crate::decimal::{decimal_text, format_u64};
use crate::models::{
    keywords_match, Bundle, ClaimStatus, HumbleChoice, MatchMode, Product, ProductKey, Timestamp,
    Tpkd,
};
use crate::text::{
    borrow_all, chars_of, concat2, joined, lowercase_of, split, split_on, string_of,
    strings_view, strs_view, to_lowercase, vecs_view,
};
use crate::util::{humanize_bytes, humanized_size, text_view};
use std::fmt::Write;
use vstd::prelude::*;

verus! {

/// The views of the rows of a table.
pub open spec fn rows_view(rows: Seq<Vec<String>>) -> Seq<Seq<Seq<char>>> {
    rows.map_values(|row: Vec<String>| strings_view(row@))
}

/// Where the text of a column stands in its cells.
#[derive(Debug, Clone, Copy, PartialEq, Eq, Structural)]
pub enum Align {
    Left,
    Right,
    Center,
}

/// How a table is drawn: the columns whose alignment is set, in the order
/// in which they are set, and whether cells that repeat the cell above them
/// are merged with it.
#[derive(Debug)]
pub struct TableLayout {
    pub alignments: Vec<(usize, Align)>,
    pub merge_vertical: bool,
}

/// The kinds of table that the commands show.
#[derive(Debug, Clone, Copy, PartialEq, Eq, Structural)]
pub enum TableKind {
    /// The bundles bought.
    Bundles,
    /// The products of one bundle.
    Products,
    /// The keys of one bundle.
    Keys,
    /// The hits of a search.
    SearchHits,
    /// The choices of a month.
    Choices,
}

/// The alignments set for a kind of table.
pub open spec fn alignments_of(kind: TableKind) -> Seq<(usize, Align)> {
    match kind {
        TableKind::Bundles => seq![(1usize, Align::Left), (2usize, Align::Right)],
        TableKind::Products => seq![
            (0usize, Align::Right),
            (1usize, Align::Left),
            (2usize, Align::Left),
            (3usize, Align::Right),
        ],
        TableKind::Keys => seq![
            (0usize, Align::Right),
            (1usize, Align::Left),
            (2usize, Align::Center),
        ],
        TableKind::SearchHits => seq![(1usize, Align::Left), (2usize, Align::Left)],
        TableKind::Choices => seq![(0usize, Align::Right), (1usize, Align::Left)],
    }
}

/// How a kind of table is drawn. Only the hits of a search are merged, so
/// that a bundle with several hits is named once.
pub fn layout_of(kind: TableKind) -> (r: TableLayout)
    ensures
        r.alignments@ == alignments_of(kind),
        r.merge_vertical == (kind == TableKind::SearchHits),
{
    let mut alignments: Vec<(usize, Align)> = Vec::new();
    match kind {
        TableKind::Bundles => {
            alignments.push((1, Align::Left));
            alignments.push((2, Align::Right));
        },
        TableKind::Products => {
            alignments.push((0, Align::Right));
            alignments.push((1, Align::Left));
            alignments.push((2, Align::Left));
            alignments.push((3, Align::Right));
        },
        TableKind::Keys => {
            alignments.push((0, Align::Right));
            alignments.push((1, Align::Left));
            alignments.push((2, Align::Center));
        },
        TableKind::SearchHits => {
            alignments.push((1, Align::Left));
            alignments.push((2, Align::Left));
        },
        TableKind::Choices => {
            alignments.push((0, Align::Right));
            alignments.push((1, Align::Left));
        },
    }
    assert(alignments@ == alignments_of(kind));
    TableLayout { alignments, merge_vertical: kind == TableKind::SearchHits }
}

/// A row of three cells.
pub fn row3(a: &str, b: &str, c: &str) -> (r: Vec<String>)
    ensures
        strings_view(r@) == seq![a@, b@, c@],
{
    let mut row: Vec<String> = Vec::new();
    row.push(a.to_owned());
    row.push(b.to_owned());
    row.push(c.to_owned());
    assert(strings_view(row@) == seq![a@, b@, c@]);
    row
}

/// A row of four cells.
pub fn row4(a: &str, b: &str, c: &str, d: &str) -> (r: Vec<String>)
    ensures
        strings_view(r@) == seq![a@, b@, c@, d@],
{
    let mut row: Vec<String> = Vec::new();
    row.push(a.to_owned());
    row.push(b.to_owned());
    row.push(c.to_owned());
    row.push(d.to_owned());
    assert(strings_view(row@) == seq![a@, b@, c@, d@]);
    row
}

// ---------------------------------------------------------------------------
// The list of bundles
// ---------------------------------------------------------------------------

/// The row of one bundle: key, name, size as it is written out, and claim
/// status.
pub open spec fn bundle_row(bundle: Bundle) -> Seq<Seq<char>> {
    seq![
        bundle.gamekey@,
        bundle.details.human_name@,
        humanized_size(bundle.size() as u64),
        status_of(bundle).text(),
    ]
}

/// The table of the bundles: the headings, then a row for each bundle.
pub open spec fn bundle_rows(bundles: Seq<Bundle>) -> Seq<Seq<Seq<char>>> {
    seq![seq!["Key"@, "Name"@, "Size"@, "Claimed"@]] + bundles.map_values(
        |b: Bundle| bundle_row(b),
    )
}

/// The table that lists the bundles.
pub fn bundles_table(bundles: &Vec<Bundle>) -> (r: Vec<Vec<String>>)
    requires
        forall|i: int| 0 <= i < bundles@.len() ==> (#[trigger] bundles@[i]).size() <= u64::MAX,
        forall|i: int| 0 <= i < bundles@.len() ==> (#[trigger] bundles@[i]).keys_readable(),
    ensures
        rows_view(r@) == bundle_rows(bundles@),
{
    let mut rows: Vec<Vec<String>> = Vec::new();
    rows.push(row4("Key", "Name", "Size", "Claimed"));
    let ghost head = rows_view(rows@);
    assert(head == seq![seq!["Key"@, "Name"@, "Size"@, "Claimed"@]]);
    let ghost body = bundles@.map_values(|b: Bundle| bundle_row(b));
    let mut i: usize = 0;
    while i < bundles.len()
        invariant
            i <= bundles.len(),
            forall|k: int| 0 <= k < bundles@.len() ==> (#[trigger] bundles@[k]).size() <= u64::MAX,
            forall|k: int| 0 <= k < bundles@.len() ==> (#[trigger] bundles@[k]).keys_readable(),
            body == bundles@.map_values(|b: Bundle| bundle_row(b)),
            rows_view(rows@) == head + body.take(i as int),
        decreases bundles.len() - i,
    {
        let ghost before = rows_view(rows@);
        let bundle = &bundles[i];
        let size = humanize_bytes(bundle.total_size());
        let status = bundle.claim_status().to_string();
        let row = row4(
            bundle.gamekey.as_str(),
            bundle.details.human_name.as_str(),
            size.as_str(),
            status.as_str(),
        );
        assert(strings_view(row@) == bundle_row(*bundle));
        rows.push(row);
        assert(rows_view(rows@) == before.push(bundle_row(*bundle)));
        assert(body.take(i + 1) == body.take(i as int).push(bundle_row(*bundle)));
        i += 1;
    }
    assert(body.take(bundles.len() as int) == body);
    rows
}

// ---------------------------------------------------------------------------
// The details of one bundle
// ---------------------------------------------------------------------------

/// The pattern of the day on which a bundle was bought: year, month, day.
pub const PURCHASE_DATE_PATTERN: &'static str = "%Y-%m-%d";

/// A moment written out after a pattern, as `chrono` writes the date and
/// time, in universal time, that lies `seconds` and `nanoseconds` after the
/// beginning of 1970; `None` where `chrono` knows no such moment or cannot
/// follow the pattern.
pub uninterp spec fn formatted_moment(seconds: i64, nanoseconds: u32, pattern: Seq<char>)
    -> Option<Seq<char>>;

/// Makes the moment with `DateTime::from_timestamp` and writes its
/// `naive_utc` through `NaiveDateTime::format`. The text is named, not
/// described.
#[verifier::external_body]
fn chrono_format(seconds: i64, nanoseconds: u32, pattern: &str) -> (r: Option<String>)
    ensures
        text_view(r) == formatted_moment(seconds, nanoseconds, pattern@),
{
    let moment = chrono::DateTime::from_timestamp(seconds, nanoseconds)?.naive_utc();
    let mut text = String::new();
    match write!(text, "{}", moment.format(pattern)) {
        Ok(()) => Some(text),
        Err(_) => None,
    }
}

/// The line that tells when a bundle was bought, given the day written out.
pub fn purchase_line_for(date: &str) -> (r: String)
    ensures
        r@ == "Purchased    : "@ + date@,
{
    concat2("Purchased    : ", date)
}

/// The line that tells when a bundle was bought; `None` for a moment that
/// cannot be written as a date.
pub fn purchase_line(created: &Timestamp) -> (r: Option<String>)
    ensures
        text_view(r) == match formatted_moment(
            created.seconds,
            created.nanoseconds,
            PURCHASE_DATE_PATTERN@,
        ) {
            Some(date) => Some("Purchased    : "@ + date),
            None => None,
        },
{
    match chrono_format(created.seconds, created.nanoseconds, PURCHASE_DATE_PATTERN) {
        Some(date) => Some(purchase_line_for(date.as_str())),
        None => None,
    }
}

/// The line that tells the size of a bundle, given the size written out.
pub fn total_size_line(size: &str) -> (r: String)
    ensures
        r@ == "Total size   : "@ + size@,
{
    concat2("Total size   : ", size)
}

/// The row of the product at `index`, counted from 0: its number counted
/// from 1, its name, its formats and its size as it is written out.
pub open spec fn product_row(index: int, product: Product) -> Seq<Seq<char>> {
    seq![
        decimal_text((index + 1) as nat),
        product.human_name@,
        joined(product.format_names(), ", "@),
        humanized_size(product.size() as u64),
    ]
}

/// The table of a bundle's products: the headings, then a row for each
/// product.
pub open spec fn product_rows(products: Seq<Product>) -> Seq<Seq<Seq<char>>> {
    seq![seq!["#"@, "Sub-item"@, "Format"@, "Total Size"@]] + Seq::new(
        products.len(),
        |i: int| product_row(i, products[i]),
    )
}

/// The table that lists the products of a bundle.
pub fn products_table(products: &Vec<Product>) -> (r: Vec<Vec<String>>)
    requires
        forall|i: int| 0 <= i < products@.len() ==> (#[trigger] products@[i]).size() <= u64::MAX,
    ensures
        rows_view(r@) == product_rows(products@),
{
    let mut rows: Vec<Vec<String>> = Vec::new();
    rows.push(row4("#", "Sub-item", "Format", "Total Size"));
    let ghost head = rows_view(rows@);
    assert(head == seq![seq!["#"@, "Sub-item"@, "Format"@, "Total Size"@]]);
    let ghost body = Seq::new(products@.len(), |i: int| product_row(i, products@[i]));
    let mut i: usize = 0;
    while i < products.len()
        invariant
            i <= products.len(),
            forall|k: int|
                0 <= k < products@.len() ==> (#[trigger] products@[k]).size() <= u64::MAX,
            body == Seq::new(products@.len(), |i: int| product_row(i, products@[i])),
            rows_view(rows@) == head + body.take(i as int),
        decreases products.len() - i,
    {
        let ghost before = rows_view(rows@);
        let product = &products[i];
        let number = format_u64((i + 1) as u64);
        let formats = product.formats();
        let size = humanize_bytes(product.total_size());
        let row = row4(
            number.as_str(),
            product.human_name.as_str(),
            formats.as_str(),
            size.as_str(),
        );
        assert(strings_view(row@) == product_row(i as int, *product));
        rows.push(row);
        assert(rows_view(rows@) == before.push(product_row(i as int, *product)));
        assert(body.take(i + 1) == body.take(i as int).push(product_row(i as int, *product)));
        i += 1;
    }
    assert(body.take(products.len() as int) == body);
    rows
}

/// The row of the key at `index`, counted from 0: its number counted from
/// 1, its name, and whether it has been redeemed.
pub open spec fn key_row(index: int, key: ProductKey) -> Seq<Seq<char>> {
    seq![
        decimal_text((index + 1) as nat),
        key.human_name@,
        if key.redeemed {
            "Yes"@
        } else {
            "No"@
        },
    ]
}

/// The table of a bundle's keys: the headings, then a row for each key.
pub open spec fn key_rows(keys: Seq<ProductKey>) -> Seq<Seq<Seq<char>>> {
    seq![seq!["#"@, "Key Name"@, "Redeemed"@]] + Seq::new(keys.len(), |i: int| key_row(i, keys[i]))
}

/// Whether every key has been redeemed.
pub open spec fn all_keys_redeemed(keys: Seq<ProductKey>) -> bool {
    forall|i: int| 0 <= i < keys.len() ==> (#[trigger] keys[i]).redeemed
}

/// The table that lists the keys of a bundle, and whether every key has
/// been redeemed.
pub fn keys_table(keys: &Vec<ProductKey>) -> (r: (Vec<Vec<String>>, bool))
    ensures
        rows_view(r.0@) == key_rows(keys@),
        r.1 == all_keys_redeemed(keys@),
{
    let mut rows: Vec<Vec<String>> = Vec::new();
    rows.push(row3("#", "Key Name", "Redeemed"));
    let ghost head = rows_view(rows@);
    assert(head == seq![seq!["#"@, "Key Name"@, "Redeemed"@]]);
    let ghost body = Seq::new(keys@.len(), |i: int| key_row(i, keys@[i]));
    let mut all_redeemed = true;
    let mut i: usize = 0;
    while i < keys.len()
        invariant
            i <= keys.len(),
            body == Seq::new(keys@.len(), |i: int| key_row(i, keys@[i])),
            rows_view(rows@) == head + body.take(i as int),
            all_redeemed == all_keys_redeemed(keys@.take(i as int)),
        decreases keys.len() - i,
    {
        let ghost before = rows_view(rows@);
        let key = &keys[i];
        let number = format_u64((i + 1) as u64);
        let row = row3(
            number.as_str(),
            key.human_name.as_str(),
            if key.redeemed {
                "Yes"
            } else {
                "No"
            },
        );
        assert(strings_view(row@) == key_row(i as int, *key));
        rows.push(row);
        assert(rows_view(rows@) == before.push(key_row(i as int, *key)));
        assert(body.take(i + 1) == body.take(i as int).push(key_row(i as int, *key)));
        assert(keys@.take(i + 1) == keys@.take(i as int).push(*key));
        if !key.redeemed {
            assert(!keys@.take(i + 1)[i as int].redeemed);
            all_redeemed = false;
        } else {
            assert(all_keys_redeemed(keys@.take(i as int)) ==> all_keys_redeemed(
                keys@.take(i + 1),
            )) by {
                if all_keys_redeemed(keys@.take(i as int)) {
                    assert forall|k: int| 0 <= k < i + 1 implies (#[trigger] keys@.take(
                        i + 1,
                    )[k]).redeemed by {
                        if k < i {
                            assert(keys@.take(i as int)[k].redeemed);
                        }
                    }
                }
            }
            assert(!all_keys_redeemed(keys@.take(i as int)) ==> !all_keys_redeemed(
                keys@.take(i + 1),
            )) by {
                if !all_keys_redeemed(keys@.take(i as int)) {
                    let k = choose|k: int|
                        0 <= k < i && !(#[trigger] keys@.take(i as int)[k]).redeemed;
                    assert(!keys@.take(i + 1)[k].redeemed);
                }
            }
        }
        i += 1;
    }
    assert(body.take(keys.len() as int) == body);
    assert(keys@.take(keys.len() as int) == keys@);
    (rows, all_redeemed)
}

// ---------------------------------------------------------------------------
// Searching
// ---------------------------------------------------------------------------

/// One product that a search found: the key and the name of its bundle, and
/// its own name.
#[derive(Debug)]
pub struct SearchHit {
    pub key: String,
    pub bundle_name: String,
    pub product_name: String,
}

impl SearchHit {
    /// The hit as a row: key, bundle, product.
    pub open spec fn row(&self) -> Seq<Seq<char>> {
        seq![self.key@, self.bundle_name@, self.product_name@]
    }
}

/// The rows of a list of hits.
pub open spec fn hit_rows(hits: Seq<SearchHit>) -> Seq<Seq<Seq<char>>> {
    hits.map_values(|h: SearchHit| h.row())
}

/// Whether a product's name matches keywords that are already in lower
/// case and separated by single spaces.
pub open spec fn product_matches(product: Product, lower_keywords: Seq<char>, mode: MatchMode)
    -> bool {
    keywords_match(
        split_on(lowercase_of(product.human_name@), ' '),
        split_on(lower_keywords, ' '),
        mode,
    )
}

/// `hits` followed by a row for each of the first `n` products of `bundle`
/// that match.
pub open spec fn with_product_hits(
    hits: Seq<Seq<Seq<char>>>,
    bundle: Bundle,
    n: int,
    lower_keywords: Seq<char>,
    mode: MatchMode,
) -> Seq<Seq<Seq<char>>>
    decreases n,
{
    if n <= 0 {
        hits
    } else {
        let before = with_product_hits(hits, bundle, n - 1, lower_keywords, mode);
        if product_matches(bundle.products@[n - 1], lower_keywords, mode) {
            before.push(
                seq![
                    bundle.gamekey@,
                    bundle.details.human_name@,
                    bundle.products@[n - 1].human_name@,
                ],
            )
        } else {
            before
        }
    }
}

/// The rows of the products that match, bundle after bundle, each bundle's
/// products in order.
pub open spec fn search_rows(bundles: Seq<Bundle>, lower_keywords: Seq<char>, mode: MatchMode)
    -> Seq<Seq<Seq<char>>>
    decreases bundles.len(),
{
    if bundles.len() == 0 {
        Seq::<Seq<Seq<char>>>::empty()
    } else {
        with_product_hits(
            search_rows(bundles.drop_last(), lower_keywords, mode),
            bundles.last(),
            bundles.last().products@.len() as int,
            lower_keywords,
            mode,
        )
    }
}

/// Finds the products whose names match keywords that are already in lower
/// case, separated by single spaces.
pub fn search_with_keywords(bundles: &Vec<Bundle>, lower_keywords: &str, mode: MatchMode) -> (r:
    Vec<SearchHit>)
    ensures
        hit_rows(r@) == search_rows(bundles@, lower_keywords@, mode),
{
    let words = split(&chars_of(lower_keywords), ' ');
    let mut owned: Vec<String> = Vec::new();
    let mut w: usize = 0;
    while w < words.len()
        invariant
            w <= words.len(),
            strings_view(owned@) == vecs_view(words@).take(w as int),
        decreases words.len() - w,
    {
        let ghost before = strings_view(owned@);
        let word = string_of(&words[w]);
        owned.push(word);
        assert(strings_view(owned@) == before.push(words@[w as int]@));
        assert(vecs_view(words@).take(w + 1) == before.push(words@[w as int]@));
        w += 1;
    }
    assert(vecs_view(words@).take(words.len() as int) == vecs_view(
        words@,
    ));
    let keywords = borrow_all(&owned);
    assert(strs_view(keywords@) == split_on(lower_keywords@, ' '));
    let mut hits: Vec<SearchHit> = Vec::new();
    let mut i: usize = 0;
    assert(bundles@.take(0) == Seq::<Bundle>::empty());
    assert(hit_rows(hits@) == Seq::<Seq<Seq<char>>>::empty());
    while i < bundles.len()
        invariant
            i <= bundles.len(),
            strs_view(keywords@) == split_on(lower_keywords@, ' '),
            hit_rows(hits@) == search_rows(bundles@.take(i as int), lower_keywords@, mode),
        decreases bundles.len() - i,
    {
        let bundle = &bundles[i];
        assert(bundles@.take(i + 1).drop_last() == bundles@.take(i as int));
        assert(bundles@.take(i + 1).last() == *bundle);
        let ghost start = hit_rows(hits@);
        let mut j: usize = 0;
        while j < bundle.products.len()
            invariant
                j <= bundle.products.len(),
                strs_view(keywords@) == split_on(lower_keywords@, ' '),
                hit_rows(hits@) == with_product_hits(
                    start,
                    *bundle,
                    j as int,
                    lower_keywords@,
                    mode,
                ),
            decreases bundle.products.len() - j,
        {
            let product = &bundle.products[j];
            if product.name_matches(keywords.as_slice(), &mode) {
                let ghost before = hit_rows(hits@);
                let hit = SearchHit {
                    key: bundle.gamekey.clone(),
                    bundle_name: bundle.details.human_name.clone(),
                    product_name: product.human_name.clone(),
                };
                hits.push(hit);
                assert(hit_rows(hits@) == before.push(hit.row()));
            }
            j += 1;
        }
        i += 1;
    }
    assert(bundles@.take(bundles.len() as int) == bundles@);
    hits
}

/// Finds the products whose names hold the keywords: any of them, or all,
/// as `mode` asks. The keywords are separated by single spaces; letter case
/// is set aside.
pub fn search_bundles(bundles: &Vec<Bundle>, keywords: &str, mode: MatchMode) -> (r: Vec<
    SearchHit,
>)
    ensures
        hit_rows(r@) == search_rows(bundles@, lowercase_of(keywords@), mode),
{
    let lower = to_lowercase(keywords);
    search_with_keywords(bundles, lower.as_str(), mode)
}

/// The table of the hits of a search: the headings, then a row for each
/// hit.
pub fn search_table(hits: &Vec<SearchHit>) -> (r: Vec<Vec<String>>)
    ensures
        rows_view(r@) == seq![seq!["Key"@, "Name"@, "Sub Item"@]] + hit_rows(hits@),
{
    let mut rows: Vec<Vec<String>> = Vec::new();
    rows.push(row3("Key", "Name", "Sub Item"));
    let ghost head = rows_view(rows@);
    assert(head == seq![seq!["Key"@, "Name"@, "Sub Item"@]]);
    let mut i: usize = 0;
    while i < hits.len()
        invariant
            i <= hits.len(),
            rows_view(rows@) == head + hit_rows(hits@).take(i as int),
        decreases hits.len() - i,
    {
        let ghost before = rows_view(rows@);
        let hit = &hits[i];
        let row = row3(hit.key.as_str(), hit.bundle_name.as_str(), hit.product_name.as_str());
        rows.push(row);
        assert(rows_view(rows@) == before.push(hit.row()));
        assert(hit_rows(hits@).take(i + 1) == hit_rows(hits@).take(i as int).push(hit.row()));
        i += 1;
    }
    assert(hit_rows(hits@).take(hits.len() as int) == hit_rows(hits@));
    rows
}

// ---------------------------------------------------------------------------
// The choices of a month
// ---------------------------------------------------------------------------

/// The claim status of one choice.
pub open spec fn choice_status(tpkd: Tpkd) -> ClaimStatus {
    if tpkd.gamekey is None {
        ClaimStatus::NotAvailable
    } else if tpkd.redeemed_key_val is Some {
        ClaimStatus::Yes
    } else {
        ClaimStatus::No
    }
}

/// The choices of a month, game after game in the order of the games'
/// identifiers, each game's choices in order.
pub open spec fn choices_of(choice: HumbleChoice, n: int) -> Seq<Tpkd>
    decreases n,
{
    if n <= 0 {
        Seq::<Tpkd>::empty()
    } else {
        choices_of(choice, n - 1) + choice.options.data.game_data@[n - 1].1.tpkds@
    }
}

/// The row of the choice at `index`, counted from 0: its number counted
/// from 1, its name and its claim status.
pub open spec fn choice_row(index: int, tpkd: Tpkd) -> Seq<Seq<char>> {
    seq![decimal_text((index + 1) as nat), tpkd.human_name@, choice_status(tpkd).text()]
}

/// The table of the choices: the headings, then a row for each choice.
pub open spec fn choice_rows(tpkds: Seq<Tpkd>) -> Seq<Seq<Seq<char>>> {
    seq![seq!["#"@, "Title"@, "Redeemed"@]] + Seq::new(
        tpkds.len(),
        |i: int| choice_row(i, tpkds[i]),
    )
}

/// Whether no choice is still to be redeemed.
pub open spec fn none_unredeemed(tpkds: Seq<Tpkd>) -> bool {
    forall|i: int| 0 <= i < tpkds.len() ==> choice_status(#[trigger] tpkds[i]) != ClaimStatus::No
}

/// The table that lists the choices of a month, and whether none of them
/// is still to be redeemed.
pub fn choices_table(choice: &HumbleChoice) -> (r: (Vec<Vec<String>>, bool))
    ensures
        rows_view(r.0@) == choice_rows(
            choices_of(*choice, choice.options.data.game_data@.len() as int),
        ),
        r.1 == none_unredeemed(choices_of(*choice, choice.options.data.game_data@.len() as int)),
{
    let games = &choice.options.data.game_data;
    let mut rows: Vec<Vec<String>> = Vec::new();
    rows.push(row3("#", "Title", "Redeemed"));
    let ghost head = rows_view(rows@);
    assert(head == seq![seq!["#"@, "Title"@, "Redeemed"@]]);
    let mut all_redeemed = true;
    let mut g: usize = 0;
    let ghost mut seen: Seq<Tpkd> = Seq::empty();
    assert(rows_view(rows@) == choice_rows(seen));
    while g < games.len()
        invariant
            g <= games.len(),
            *games == choice.options.data.game_data,
            seen == choices_of(*choice, g as int),
            rows@.len() == seen.len() + 1,
            rows_view(rows@) == choice_rows(seen),
            all_redeemed == none_unredeemed(seen),
        decreases games.len() - g,
    {
        let tpkds = &games[g].1.tpkds;
        let ghost start = seen;
        let mut t: usize = 0;
        assert(tpkds@.take(0) == Seq::<Tpkd>::empty());
        assert(start + tpkds@.take(0) == start);
        while t < tpkds.len()
            invariant
                t <= tpkds.len(),
                seen == start + tpkds@.take(t as int),
                rows@.len() == seen.len() + 1,
                rows_view(rows@) == choice_rows(seen),
                all_redeemed == none_unredeemed(seen),
            decreases tpkds.len() - t,
        {
            let ghost before = rows_view(rows@);
            let ghost old_seen = seen;
            let tpkd = &tpkds[t];
            let number = format_u64(rows.len() as u64);
            let status = tpkd.claim_status();
            let text = status.to_string();
            let row = row3(number.as_str(), tpkd.human_name.as_str(), text.as_str());
            assert(strings_view(row@) == choice_row(old_seen.len() as int, *tpkd));
            rows.push(row);
            proof {
                seen = old_seen.push(*tpkd);
                assert(tpkds@.take(t + 1) == tpkds@.take(t as int).push(*tpkd));
                assert(seen == start + tpkds@.take(t + 1));
                assert(rows_view(rows@) == before.push(choice_row(old_seen.len() as int, *tpkd)));
                assert(choice_rows(seen) == choice_rows(old_seen).push(
                    choice_row(old_seen.len() as int, *tpkd),
                ));
                if none_unredeemed(old_seen) && status != ClaimStatus::No {
                    assert forall|i: int| 0 <= i < seen.len() implies choice_status(
                        #[trigger] seen[i],
                    ) != ClaimStatus::No by {
                        if i < old_seen.len() {
                            assert(seen[i] == old_seen[i]);
                        }
                    }
                }
                if !none_unredeemed(old_seen) {
                    let k = choose|k: int|
                        0 <= k < old_seen.len() && choice_status(#[trigger] old_seen[k])
                            == ClaimStatus::No;
                    assert(seen[k] == old_seen[k]);
                }
                if status == ClaimStatus::No {
                    assert(choice_status(seen[old_seen.len() as int]) == ClaimStatus::No);
                }
            }
            if status == ClaimStatus::No {
                all_redeemed = false;
            }
            t += 1;
        }
        assert(tpkds@.take(tpkds.len() as int) == tpkds@);
        g += 1;
    }
    (rows, all_redeemed)
}

} // verus!

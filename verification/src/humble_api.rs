//! What the storefront is asked: addresses, the session cookie, the keys of
//! one request, and what its answers hold.

use crate::download::NetworkFailure;
use crate::models::{Bundle, GameKey, Timestamp};
use crate::text::{concat2, concat3, strings_view};
use crate::util::segments_view;
use vstd::prelude::*;

verus! {

/// Why a request to the storefront failed.
#[derive(Debug)]
pub enum ApiError {
    /// The exchange failed.
    NetworkError(NetworkFailure),
    /// The answer could not be read; the text says why.
    DeserializeError(String),
    /// The page holds no data, or more than one block of it.
    BundleNotFound,
}

impl ApiError {
    /// The error in words.
    pub open spec fn text(&self) -> Seq<char> {
        match self {
            ApiError::NetworkError(failure) => failure.message@,
            ApiError::DeserializeError(message) => message@,
            ApiError::BundleNotFound => "cannot find any data"@,
        }
    }

    /// The error in words.
    pub fn to_string(&self) -> (r: String)
        ensures
            r@ == self.text(),
    {
        match self {
            ApiError::NetworkError(failure) => failure.message.clone(),
            ApiError::DeserializeError(message) => message.clone(),
            ApiError::BundleNotFound => "cannot find any data".to_owned(),
        }
    }
}

/// The games of one request for bundle data are at most this many.
pub const CHUNK_SIZE: usize = 10;

/// The address that lists the keys of the bundles bought.
pub const ORDER_KEYS_URL: &'static str = "https://www.humblebundle.com/api/v1/user/order";

/// The address that gives the data of several bundles.
pub const ORDERS_URL: &'static str = "https://www.humblebundle.com/api/v1/orders";

/// The page elements that hold the data of a month's choices: the first is
/// that of the current month, the second that of earlier months.
pub const CHOICE_DATA_SELECTOR: &'static str =
    "script#webpack-subscriber-hub-data, script#webpack-monthly-product-data";

/// The inner HTML of each element of a page that a group of CSS selectors
/// matches, in the order in which `scraper` yields the elements, as it
/// parses the page and the selectors and writes the elements out; `None`
/// where the selectors do not parse.
pub uninterp spec fn selected_inner_html(html: Seq<char>, selector: Seq<char>) -> Option<
    Seq<Seq<char>>,
>;

/// Parses the page with `Html::parse_document` and the selectors with
/// `Selector::parse`, and collects `ElementRef::inner_html` of what
/// `Html::select` yields. The texts are named, not described.
#[verifier::external_body]
fn select_inner_html(html: &str, selector: &str) -> (r: Option<Vec<String>>)
    ensures
        segments_view(r) == selected_inner_html(html@, selector@),
{
    let document = scraper::Html::parse_document(html);
    match scraper::Selector::parse(selector) {
        Ok(parsed) => Some(document.select(&parsed).map(|element| element.inner_html()).collect()),
        Err(_) => None,
    }
}

/// The data block among the blocks found in a page: the only one, where
/// there is exactly one.
pub open spec fn only_block(blocks: Option<Seq<Seq<char>>>) -> Option<Seq<char>> {
    match blocks {
        Some(found) => if found.len() == 1 {
            Some(found[0])
        } else {
            None
        },
        None => None,
    }
}

/// Picks the data block out of the blocks found in a page.
pub fn single_block(blocks: Option<Vec<String>>) -> (r: Result<String, ApiError>)
    ensures
        match r {
            Ok(text) => only_block(segments_view(blocks)) == Some(text@),
            Err(e) => only_block(segments_view(blocks)) is None && e == ApiError::BundleNotFound,
        },
{
    match blocks {
        None => Err(ApiError::BundleNotFound),
        Some(mut found) => {
            if found.len() != 1 {
                return Err(ApiError::BundleNotFound);
            }
            let ghost before = found@;
            match found.pop() {
                Some(text) => {
                    assert(strings_view(before)[0] == text@);
                    Ok(text)
                },
                None => Err(ApiError::BundleNotFound),
            }
        },
    }
}

/// A client of the storefront, known to it by a session key.
pub struct HumbleApi {
    auth_key: String,
}

impl HumbleApi {
    /// The session key.
    pub closed spec fn key(&self) -> Seq<char> {
        self.auth_key@
    }

    /// A client that presents `auth_key` as its session key.
    pub fn new(auth_key: &str) -> (r: Self)
        ensures
            r.key() == auth_key@,
    {
        Self { auth_key: auth_key.to_owned() }
    }

    /// The value of the `cookie` header that carries the session key.
    pub fn cookie(&self) -> (r: String)
        ensures
            r@ == "_simpleauth_sess="@ + self.key(),
    {
        concat2("_simpleauth_sess=", self.auth_key.as_str())
    }

    /// The address of one bundle's data.
    pub fn bundle_url(&self, product_key: &str) -> (r: String)
        ensures
            r@ == "https://www.humblebundle.com/api/v1/order/"@ + product_key@
                + "?all_tpkds=true"@,
    {
        concat3("https://www.humblebundle.com/api/v1/order/", product_key, "?all_tpkds=true")
    }

    /// The address of a month's choices. `when` is `home` for the current
    /// month, else the month and the year, as in `january-2023`.
    pub fn choices_url(&self, when: &str) -> (r: String)
        ensures
            r@ == "https://www.humblebundle.com/membership/"@ + when@,
    {
        concat2("https://www.humblebundle.com/membership/", when)
    }

    /// The text of the data block of a month's choices, as the page `html`
    /// holds it: the inner HTML of the one element that
    /// `CHOICE_DATA_SELECTOR` matches. A page with no such element, or with
    /// several, holds no data.
    pub fn parse_bundle_choices(&self, html: &str) -> (r: Result<String, ApiError>)
        ensures
            match r {
                Ok(text) => only_block(selected_inner_html(html@, CHOICE_DATA_SELECTOR@)) == Some(
                    text@,
                ),
                Err(e) => only_block(selected_inner_html(html@, CHOICE_DATA_SELECTOR@)) is None
                    && e == ApiError::BundleNotFound,
            },
    {
        single_block(select_inner_html(html, CHOICE_DATA_SELECTOR))
    }
}

/// The keys of a list of key records, in order.
pub fn game_keys(records: Vec<GameKey>) -> (r: Vec<String>)
    ensures
        r@.len() == records@.len(),
        forall|i: int| 0 <= i < r@.len() ==> r@[i]@ == records@[i].gamekey@,
{
    let mut records = records;
    let ghost all = records@;
    let mut out: Vec<String> = Vec::new();
    while records.len() > 0
        invariant
            out@.len() + records@.len() == all.len(),
            records@ == all.skip(out@.len() as int),
            forall|i: int| 0 <= i < out@.len() ==> out@[i]@ == all[i].gamekey@,
        decreases records.len(),
    {
        let record = records.remove(0);
        out.push(record.gamekey);
    }
    out
}

/// The number of requests that `n` keys take, `CHUNK_SIZE` keys to a
/// request.
pub open spec fn chunk_count(n: nat) -> nat {
    (n + CHUNK_SIZE - 1) as nat / CHUNK_SIZE as nat
}

/// The keys of request number `k`, counted from 0.
pub open spec fn chunk_of(keys: Seq<Seq<char>>, k: int) -> Seq<Seq<char>> {
    keys.subrange(
        k * CHUNK_SIZE,
        if (k + 1) * CHUNK_SIZE <= keys.len() {
            (k + 1) * CHUNK_SIZE
        } else {
            keys.len() as int
        },
    )
}

/// Cuts the keys into the groups that are asked for together: `CHUNK_SIZE`
/// keys to a group, the last group holding what is left.
pub fn key_chunks(keys: &Vec<String>) -> (r: Vec<Vec<String>>)
    ensures
        r@.len() == chunk_count(keys@.len()),
        forall|k: int|
            0 <= k < r@.len() ==> strings_view(#[trigger] r@[k]@) == chunk_of(
                strings_view(keys@),
                k,
            ),
{
    let mut out: Vec<Vec<String>> = Vec::new();
    let mut start: usize = 0;
    while start < keys.len()
        invariant
            start <= keys.len(),
            start < keys.len() ==> start == out@.len() * CHUNK_SIZE,
            out@.len() == chunk_count(start as nat),
            forall|k: int|
                0 <= k < out@.len() ==> strings_view(#[trigger] out@[k]@) == chunk_of(
                    strings_view(keys@),
                    k,
                ),
        decreases keys.len() - start,
    {
        let end: usize = if keys.len() - start > CHUNK_SIZE {
            start + CHUNK_SIZE
        } else {
            keys.len()
        };
        let mut chunk: Vec<String> = Vec::new();
        let mut i: usize = start;
        while i < end
            invariant
                start <= i <= end <= keys.len(),
                strings_view(chunk@) == strings_view(keys@).subrange(start as int, i as int),
            decreases end - i,
        {
            let ghost before = strings_view(chunk@);
            chunk.push(keys[i].clone());
            assert(strings_view(chunk@) == before.push(keys@[i as int]@));
            assert(strings_view(keys@).subrange(start as int, i + 1) == before.push(
                keys@[i as int]@,
            ));
            i += 1;
        }
        let ghost k = out@.len() as int;
        assert(strings_view(chunk@) == chunk_of(strings_view(keys@), k));
        out.push(chunk);
        start = end;
    }
    out
}

/// The query of a request for the data of the bundles `keys`: first the
/// wish for all key data, then each key.
pub fn bundles_query(keys: &Vec<String>) -> (r: Vec<(String, String)>)
    ensures
        r@.len() == keys@.len() + 1,
        r@[0].0@ == "all_tpkds"@ && r@[0].1@ == "true"@,
        forall|i: int|
            0 <= i < keys@.len() ==> (#[trigger] r@[i + 1]).0@ == "gamekeys"@ && r@[i + 1].1@
                == keys@[i]@,
{
    let mut out: Vec<(String, String)> = Vec::new();
    out.push(("all_tpkds".to_owned(), "true".to_owned()));
    let mut i: usize = 0;
    while i < keys.len()
        invariant
            i <= keys.len(),
            out@.len() == i + 1,
            out@[0].0@ == "all_tpkds"@ && out@[0].1@ == "true"@,
            forall|j: int|
                0 <= j < i ==> (#[trigger] out@[j + 1]).0@ == "gamekeys"@ && out@[j + 1].1@
                    == keys@[j]@,
        decreases keys.len() - i,
    {
        out.push(("gamekeys".to_owned(), keys[i].clone()));
        i += 1;
    }
    out
}

/// Where a bundle made at `t` goes into `sorted`: behind every bundle that
/// was not made after it.
pub open spec fn insert_position(sorted: Seq<Bundle>, t: Timestamp) -> int
    decreases sorted.len(),
{
    if sorted.len() == 0 {
        0
    } else if t.is_before(&sorted[0].created) {
        0
    } else {
        1 + insert_position(sorted.drop_first(), t)
    }
}

/// The bundles in the order in which they were made, oldest first; bundles
/// made at the same moment keep the order they came in.
pub open spec fn by_creation(bundles: Seq<Bundle>) -> Seq<Bundle>
    decreases bundles.len(),
{
    if bundles.len() == 0 {
        Seq::<Bundle>::empty()
    } else {
        let before = by_creation(bundles.drop_last());
        before.insert(insert_position(before, bundles.last().created), bundles.last())
    }
}

/// Whether no bundle stands before one that was made earlier.
pub open spec fn in_creation_order(bundles: Seq<Bundle>) -> bool {
    forall|i: int, j: int|
        0 <= i < j < bundles.len() ==> !bundles[j].created.is_before(&bundles[i].created)
}

proof fn lemma_insert_position(sorted: Seq<Bundle>, t: Timestamp)
    ensures
        0 <= insert_position(sorted, t) <= sorted.len(),
        forall|i: int|
            0 <= i < insert_position(sorted, t) ==> !t.is_before(&(#[trigger] sorted[i]).created),
        insert_position(sorted, t) < sorted.len() ==> t.is_before(
            &sorted[insert_position(sorted, t)].created,
        ),
    decreases sorted.len(),
{
    if sorted.len() > 0 && !t.is_before(&sorted[0].created) {
        let rest = sorted.drop_first();
        lemma_insert_position(rest, t);
        assert forall|i: int| 0 <= i < insert_position(sorted, t) implies !t.is_before(
            &(#[trigger] sorted[i]).created,
        ) by {
            if i > 0 {
                assert(sorted[i] == rest[i - 1]);
            }
        }
        if insert_position(sorted, t) < sorted.len() {
            assert(sorted[insert_position(sorted, t)] == rest[insert_position(rest, t)]);
        }
    }
}

/// Sorting by creation keeps every bundle, each as often as it came, and
/// leaves none before an older one.
pub proof fn lemma_by_creation(bundles: Seq<Bundle>)
    ensures
        by_creation(bundles).len() == bundles.len(),
        by_creation(bundles).to_multiset() == bundles.to_multiset(),
        in_creation_order(by_creation(bundles)),
    decreases bundles.len(),
{
    broadcast use vstd::seq_lib::to_multiset_insert, vstd::seq_lib::to_multiset_build;

    if bundles.len() == 0 {
        assert(bundles == Seq::<Bundle>::empty());
    } else {
        let init = bundles.drop_last();
        let last = bundles.last();
        lemma_by_creation(init);
        let before = by_creation(init);
        let p = insert_position(before, last.created);
        lemma_insert_position(before, last.created);
        let after = before.insert(p, last);
        assert(bundles == init.push(last));
        assert(after.to_multiset() == before.to_multiset().insert(last));
        assert(bundles.to_multiset() == init.to_multiset().insert(last));
        assert forall|i: int, j: int| 0 <= i < j < after.len() implies !after[j].created.is_before(
            &after[i].created,
        ) by {
            if j == p {
                assert(after[i] == before[i]);
            } else if i == p {
                assert(after[j] == before[j - 1]);
                assert(!before[j - 1].created.is_before(&before[p].created) || j - 1 == p);
            } else {
                let bi = if i < p {
                    i
                } else {
                    i - 1
                };
                let bj = if j < p {
                    j
                } else {
                    j - 1
                };
                assert(after[i] == before[bi]);
                assert(after[j] == before[bj]);
            }
        }
    }
}

/// Puts the bundles in the order in which they were made, oldest first:
/// every bundle is kept, and bundles made at the same moment keep the order
/// they came in.
pub fn sort_by_created(bundles: Vec<Bundle>) -> (r: Vec<Bundle>)
    ensures
        r@ == by_creation(bundles@),
        r@.to_multiset() == bundles@.to_multiset(),
        in_creation_order(r@),
{
    proof {
        lemma_by_creation(bundles@);
    }
    let mut rest = bundles;
    let ghost all = rest@;
    let mut out: Vec<Bundle> = Vec::new();
    let ghost mut done: int = 0;
    assert(all.take(0) == Seq::<Bundle>::empty());
    while rest.len() > 0
        invariant
            0 <= done <= all.len(),
            rest@ == all.skip(done),
            out@ == by_creation(all.take(done)),
        decreases rest.len(),
    {
        let bundle = rest.remove(0);
        assert(bundle == all[done]);
        assert(all.take(done + 1).drop_last() == all.take(done));
        assert(all.take(done + 1).last() == bundle);
        assert(all.skip(done).remove(0) == all.skip(done + 1));
        let mut p: usize = 0;
        proof {
            lemma_by_creation(all.take(done));
        }
        assert(out@.skip(0) == out@);
        while p < out.len() && !bundle.created.before(&out[p].created)
            invariant
                p <= out.len(),
                insert_position(out@, bundle.created) == p + insert_position(
                    out@.skip(p as int),
                    bundle.created,
                ),
            decreases out.len() - p,
        {
            assert(out@.skip(p as int).drop_first() == out@.skip(p + 1));
            p += 1;
        }
        out.insert(p, bundle);
        proof {
            done = done + 1;
        }
    }
    assert(all.take(all.len() as int) == all);
    out
}

} // verus!

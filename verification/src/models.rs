//! The catalog as the storefront describes it: bundles, their products and
//! the files of each product, and the monthly choices.

use crate::decimal::{decimal_text, format_u64, parse_range, parse_unsigned};
use crate::text::{
    chars_eq, chars_of, concat2, concat3, join_strs, joined, lemma_text_lt_is_total,
    lemma_text_lt_is_transitive, lowercase_of, split, split_on, str_eq, string_of, strs_view,
    text_less, text_lt, to_lowercase, vecs_view,
};
use vstd::prelude::*;

verus! {

/// Whether the keys of a bundle have been redeemed.
#[derive(Debug, Clone, Copy, PartialEq, Eq, Structural)]
pub enum ClaimStatus {
    Yes,
    No,
    NotAvailable,
}

impl ClaimStatus {
    /// The word shown for this status.
    pub open spec fn text(&self) -> Seq<char> {
        match self {
            ClaimStatus::Yes => "Yes"@,
            ClaimStatus::No => "No"@,
            ClaimStatus::NotAvailable => "-"@,
        }
    }

    /// The word shown for this status.
    pub fn to_string(&self) -> (r: String)
        ensures
            r@ == self.text(),
    {
        match self {
            ClaimStatus::Yes => "Yes".to_owned(),
            ClaimStatus::No => "No".to_owned(),
            ClaimStatus::NotAvailable => "-".to_owned(),
        }
    }
}

// ===========================================================================
// Purchased bundles
// ===========================================================================

/// A moment in time: seconds since the Unix epoch and the nanoseconds past
/// that second. Moments compare by seconds first.
#[derive(Debug, Clone, Copy, PartialEq, Eq, Structural)]
pub struct Timestamp {
    pub seconds: i64,
    pub nanoseconds: u32,
}

impl Timestamp {
    /// Whether `self` is strictly before `other`.
    pub open spec fn is_before(&self, other: &Timestamp) -> bool {
        self.seconds < other.seconds || (self.seconds == other.seconds && self.nanoseconds
            < other.nanoseconds)
    }

    /// Whether `self` is strictly before `other`.
    pub fn before(&self, other: &Timestamp) -> (r: bool)
        ensures
            r == self.is_before(other),
    {
        self.seconds < other.seconds || (self.seconds == other.seconds && self.nanoseconds
            < other.nanoseconds)
    }
}

/// One entry of a bundle's list of third-party keys, as far as the library
/// reads it.
#[derive(Debug)]
pub struct KeyEntry {
    /// Whether the entry carries a redeemed key value that is a string.
    pub has_redeemed_key: bool,
    /// The entry's name, where it has one that is a string.
    pub human_name: Option<String>,
}

/// What a bundle holds under the name of its list of third-party keys.
#[derive(Debug)]
pub enum KeyList {
    /// Nothing: the bundle has no list of keys.
    Missing,
    /// Something that is no list. The keys of such a bundle cannot be told.
    Unreadable,
    /// The entries of the list.
    Listed(Vec<KeyEntry>),
}

/// A purchase: the products bought together, and the keys that came with
/// them.
#[derive(Debug)]
pub struct Bundle {
    pub gamekey: String,
    pub created: Timestamp,
    pub claimed: bool,
    /// The bundle's list of third-party keys.
    pub all_tpks: KeyList,
    pub details: BundleDetails,
    pub products: Vec<Product>,
}

/// A key that came with a bundle.
pub struct ProductKey {
    pub redeemed: bool,
    pub human_name: String,
}

/// The name of a key entry: its own, or the empty text.
pub open spec fn key_entry_name(entry: KeyEntry) -> Seq<char> {
    match entry.human_name {
        Some(name) => name@,
        None => Seq::<char>::empty(),
    }
}

/// For each key entry, whether it has been redeemed.
pub open spec fn redeemed_flags(entries: Seq<KeyEntry>) -> Seq<bool> {
    entries.map_values(|e: KeyEntry| e.has_redeemed_key)
}

/// The claim status that a list of keys adds up to.
pub open spec fn claim_status_of(redeemed: Seq<bool>) -> ClaimStatus {
    if redeemed.len() == 0 {
        ClaimStatus::NotAvailable
    } else if redeemed.contains(false) {
        ClaimStatus::No
    } else {
        ClaimStatus::Yes
    }
}

impl Bundle {
    /// The entries of the key list; none where the bundle has no list.
    pub open spec fn key_entries(&self) -> Seq<KeyEntry> {
        match self.all_tpks {
            KeyList::Listed(list) => list@,
            _ => Seq::<KeyEntry>::empty(),
        }
    }

    /// Whether the keys of the bundle can be told: it has a list of keys, or
    /// nothing in its place.
    pub open spec fn keys_readable(&self) -> bool {
        !(self.all_tpks is Unreadable)
    }

    /// Whether the keys of the bundle can be told.
    pub fn has_readable_keys(&self) -> (r: bool)
        ensures
            r == self.keys_readable(),
    {
        match &self.all_tpks {
            KeyList::Unreadable => false,
            _ => true,
        }
    }

    /// `Yes` where every key is redeemed, `No` where one is not, and
    /// `NotAvailable` where the bundle has no keys.
    pub fn claim_status(&self) -> (r: ClaimStatus)
        requires
            self.keys_readable(),
        ensures
            r == claim_status_of(redeemed_flags(self.key_entries())),
    {
        let product_keys = self.product_keys();
        let ghost flags = redeemed_flags(self.key_entries());
        if product_keys.len() == 0 {
            return ClaimStatus::NotAvailable;
        }
        let mut i: usize = 0;
        while i < product_keys.len()
            invariant
                i <= product_keys.len(),
                product_keys.len() == flags.len(),
                flags == redeemed_flags(self.key_entries()),
                forall|k: int| 0 <= k < flags.len() ==> flags[k] == product_keys@[k].redeemed,
                forall|k: int| 0 <= k < i ==> flags[k],
            decreases product_keys.len() - i,
        {
            if !product_keys[i].redeemed {
                assert(flags[i as int] == false);
                assert(flags.contains(false));
                return ClaimStatus::No;
            }
            i += 1;
        }
        ClaimStatus::Yes
    }

    /// The keys of the bundle, in the order of its key list.
    pub fn product_keys(&self) -> (r: Vec<ProductKey>)
        requires
            self.keys_readable(),
        ensures
            r.len() == self.key_entries().len(),
            forall|i: int|
                0 <= i < r.len() ==> {
                    &&& (#[trigger] r@[i]).redeemed == self.key_entries()[i].has_redeemed_key
                    &&& r@[i].human_name@ == key_entry_name(self.key_entries()[i])
                },
    {
        let mut result: Vec<ProductKey> = Vec::new();
        match &self.all_tpks {
            KeyList::Missing => {},
            KeyList::Unreadable => {},
            KeyList::Listed(tpks) => {
                let mut i: usize = 0;
                while i < tpks.len()
                    invariant
                        i <= tpks.len(),
                        tpks@ == self.key_entries(),
                        result.len() == i,
                        forall|k: int|
                            0 <= k < i ==> {
                                &&& (#[trigger] result@[k]).redeemed == tpks@[k].has_redeemed_key
                                &&& result@[k].human_name@ == key_entry_name(tpks@[k])
                            },
                    decreases tpks.len() - i,
                {
                    let human_name = match &tpks[i].human_name {
                        Some(name) => name.clone(),
                        None => String::new(),
                    };
                    result.push(ProductKey { redeemed: tpks[i].has_redeemed_key, human_name });
                    i += 1;
                }
            },
        }
        result
    }
}

/// The names of a bundle.
#[derive(Debug)]
pub struct BundleDetails {
    pub machine_name: String,
    pub human_name: String,
}

/// The sizes of the products of `products`, added up.
pub open spec fn sum_of_products(products: Seq<Product>) -> nat
    decreases products.len(),
{
    if products.len() == 0 {
        0
    } else {
        sum_of_products(products.drop_last()) + products.last().size()
    }
}

/// The sizes of the groups of `downloads`, added up.
pub open spec fn sum_of_downloads(downloads: Seq<ProductDownload>) -> nat
    decreases downloads.len(),
{
    if downloads.len() == 0 {
        0
    } else {
        sum_of_downloads(downloads.drop_last()) + downloads.last().size()
    }
}

/// The sizes of the files of `items`, added up.
pub open spec fn sum_of_files(items: Seq<DownloadInfo>) -> nat
    decreases items.len(),
{
    if items.len() == 0 {
        0
    } else {
        sum_of_files(items.drop_last()) + items.last().file_size as nat
    }
}

impl Bundle {
    /// The size of all files of the bundle together.
    pub open spec fn size(&self) -> nat {
        sum_of_products(self.products@)
    }

    /// The size of all files of the bundle together, unless it is more than
    /// a `u64` holds.
    pub fn checked_total_size(&self) -> (r: Option<u64>)
        ensures
            match r {
                Some(n) => n == self.size(),
                None => self.size() > u64::MAX,
            },
    {
        let mut total: u64 = 0;
        let mut i: usize = 0;
        assert(self.products@.take(0) == Seq::<Product>::empty());
        while i < self.products.len()
            invariant
                i <= self.products.len(),
                total == sum_of_products(self.products@.take(i as int)),
            decreases self.products.len() - i,
        {
            assert(self.products@.take(i + 1).drop_last() == self.products@.take(i as int));
            let next = match self.products[i].checked_total_size() {
                Some(size) => total.checked_add(size),
                None => None,
            };
            match next {
                Some(sum) => {
                    total = sum;
                },
                None => {
                    proof {
                        lemma_sum_of_products_grows(self.products@, i + 1);
                    }
                    return None;
                },
            }
            i += 1;
        }
        assert(self.products@.take(self.products.len() as int) == self.products@);
        Some(total)
    }

    /// The size of all files of the bundle together.
    pub fn total_size(&self) -> (r: u64)
        requires
            self.size() <= u64::MAX,
        ensures
            r == self.size(),
    {
        match self.checked_total_size() {
            Some(n) => n,
            None => 0,
        }
    }
}

/// The sum over the first `n` products is no more than the sum over all.
pub proof fn lemma_sum_of_products_grows(products: Seq<Product>, n: int)
    requires
        0 <= n <= products.len(),
    ensures
        sum_of_products(products.take(n)) <= sum_of_products(products),
    decreases products.len(),
{
    if n == products.len() {
        assert(products.take(n) == products);
    } else {
        assert(products.drop_last().take(n) == products.take(n));
        lemma_sum_of_products_grows(products.drop_last(), n);
    }
}

/// The sum over the first `n` groups is no more than the sum over all.
pub proof fn lemma_sum_of_downloads_grows(downloads: Seq<ProductDownload>, n: int)
    requires
        0 <= n <= downloads.len(),
    ensures
        sum_of_downloads(downloads.take(n)) <= sum_of_downloads(downloads),
    decreases downloads.len(),
{
    if n == downloads.len() {
        assert(downloads.take(n) == downloads);
    } else {
        assert(downloads.drop_last().take(n) == downloads.take(n));
        lemma_sum_of_downloads_grows(downloads.drop_last(), n);
    }
}

/// The sum over the first `n` files is no more than the sum over all.
pub proof fn lemma_sum_of_files_grows(items: Seq<DownloadInfo>, n: int)
    requires
        0 <= n <= items.len(),
    ensures
        sum_of_files(items.take(n)) <= sum_of_files(items),
    decreases items.len(),
{
    if n == items.len() {
        assert(items.take(n) == items);
    } else {
        assert(items.drop_last().take(n) == items.take(n));
        lemma_sum_of_files_grows(items.drop_last(), n);
    }
}

/// One item of a bundle, with the files it can be had as.
#[derive(Debug)]
pub struct Product {
    pub machine_name: String,
    pub human_name: String,
    pub product_details_url: String,
    /// The downloads of this product; mostly one group.
    pub downloads: Vec<ProductDownload>,
}

impl Default for Product {
    fn default() -> (r: Self)
        ensures
            r.machine_name@.len() == 0,
            r.human_name@.len() == 0,
            r.product_details_url@.len() == 0,
            r.downloads@.len() == 0,
    {
        Product {
            machine_name: String::new(),
            human_name: String::new(),
            product_details_url: String::new(),
            downloads: Vec::new(),
        }
    }
}

/// The formats of the groups of `downloads`, group after group.
pub open spec fn formats_of_downloads(downloads: Seq<ProductDownload>) -> Seq<Seq<char>>
    decreases downloads.len(),
{
    if downloads.len() == 0 {
        Seq::<Seq<char>>::empty()
    } else {
        formats_of_downloads(downloads.drop_last()) + downloads.last().format_names()
    }
}

/// How the words of a name are held against search keywords.
#[derive(Copy, Clone, Debug, PartialEq, Eq, Structural)]
pub enum MatchMode {
    All,
    Any,
}

/// Whether the keywords match a name made of `words`: one keyword among the
/// words is enough for `Any`; `All` asks for at least one keyword and for
/// every keyword among the words.
pub open spec fn keywords_match(
    words: Seq<Seq<char>>,
    keywords: Seq<Seq<char>>,
    mode: MatchMode,
) -> bool {
    match mode {
        MatchMode::Any => exists|i: int| 0 <= i < keywords.len() && words.contains(keywords[i]),
        MatchMode::All => keywords.len() > 0 && forall|i: int|
            0 <= i < keywords.len() ==> words.contains(keywords[i]),
    }
}

/// Whether `needle` is one of `words`.
fn is_word(words: &Vec<Vec<char>>, needle: &str) -> (r: bool)
    ensures
        r == vecs_view(words@).contains(needle@),
{
    let n = chars_of(needle);
    let mut i: usize = 0;
    while i < words.len()
        invariant
            i <= words.len(),
            n@ == needle@,
            forall|k: int| 0 <= k < i ==> vecs_view(words@)[k] != needle@,
        decreases words.len() - i,
    {
        if chars_eq(&words[i], &n) {
            assert(vecs_view(words@)[i as int] == needle@);
            return true;
        }
        i += 1;
    }
    false
}

/// Whether the keywords match a name that is already in lower case. The
/// words of the name are what stands between its single spaces.
pub fn lowercase_name_matches(name: &str, keywords: &[&str], mode: &MatchMode) -> (r: bool)
    ensures
        r == keywords_match(split_on(name@, ' '), strs_view(keywords@), *mode),
{
    let words = split(&chars_of(name), ' ');
    let ghost w = split_on(name@, ' ');
    let ghost kws = strs_view(keywords@);
    let mut i: usize = 0;
    match mode {
        MatchMode::Any => {
            while i < keywords.len()
                invariant
                    i <= keywords.len(),
                    vecs_view(words@) == w,
                    kws == strs_view(keywords@),
                    *mode == MatchMode::Any,
                    w == split_on(name@, ' '),
                    forall|k: int| 0 <= k < i ==> !w.contains(kws[k]),
                decreases keywords.len() - i,
            {
                if is_word(&words, keywords[i]) {
                    assert(w.contains(kws[i as int]));
                    return true;
                }
                i += 1;
            }
            false
        },
        MatchMode::All => {
            while i < keywords.len()
                invariant
                    i <= keywords.len(),
                    vecs_view(words@) == w,
                    kws == strs_view(keywords@),
                    *mode == MatchMode::All,
                    w == split_on(name@, ' '),
                    forall|k: int| 0 <= k < i ==> w.contains(kws[k]),
                decreases keywords.len() - i,
            {
                if !is_word(&words, keywords[i]) {
                    assert(!w.contains(kws[i as int]));
                    return false;
                }
                i += 1;
            }
            keywords.len() > 0
        },
    }
}

impl Product {
    /// The size of all files of the product together.
    pub open spec fn size(&self) -> nat {
        sum_of_downloads(self.downloads@)
    }

    /// The formats of all files of the product, in order.
    pub open spec fn format_names(&self) -> Seq<Seq<char>> {
        formats_of_downloads(self.downloads@)
    }

    /// The size of all files of the product together, unless it is more than
    /// a `u64` holds.
    pub fn checked_total_size(&self) -> (r: Option<u64>)
        ensures
            match r {
                Some(n) => n == self.size(),
                None => self.size() > u64::MAX,
            },
    {
        let mut total: u64 = 0;
        let mut i: usize = 0;
        assert(self.downloads@.take(0) == Seq::<ProductDownload>::empty());
        while i < self.downloads.len()
            invariant
                i <= self.downloads.len(),
                total == sum_of_downloads(self.downloads@.take(i as int)),
            decreases self.downloads.len() - i,
        {
            assert(self.downloads@.take(i + 1).drop_last() == self.downloads@.take(i as int));
            let next = match self.downloads[i].checked_total_size() {
                Some(size) => total.checked_add(size),
                None => None,
            };
            match next {
                Some(sum) => {
                    total = sum;
                },
                None => {
                    proof {
                        lemma_sum_of_downloads_grows(self.downloads@, i + 1);
                    }
                    return None;
                },
            }
            i += 1;
        }
        assert(self.downloads@.take(self.downloads.len() as int) == self.downloads@);
        Some(total)
    }

    /// The size of all files of the product together.
    pub fn total_size(&self) -> (r: u64)
        requires
            self.size() <= u64::MAX,
        ensures
            r == self.size(),
    {
        match self.checked_total_size() {
            Some(n) => n,
            None => 0,
        }
    }

    /// The formats of all files of the product, in order.
    pub fn formats_as_vec(&self) -> (r: Vec<&str>)
        ensures
            strs_view(r@) == self.format_names(),
    {
        let mut out: Vec<&str> = Vec::new();
        let mut i: usize = 0;
        assert(self.downloads@.take(0) == Seq::<ProductDownload>::empty());
        while i < self.downloads.len()
            invariant
                i <= self.downloads.len(),
                strs_view(out@) == formats_of_downloads(self.downloads@.take(i as int)),
            decreases self.downloads.len() - i,
        {
            assert(self.downloads@.take(i + 1).drop_last() == self.downloads@.take(i as int));
            let group = self.downloads[i].formats_as_vec();
            let ghost before = strs_view(out@);
            let mut j: usize = 0;
            while j < group.len()
                invariant
                    j <= group.len(),
                    strs_view(out@) == before + strs_view(group@).take(j as int),
                decreases group.len() - j,
            {
                let ghost so_far = strs_view(out@);
                out.push(group[j]);
                assert(strs_view(out@) == so_far.push(group@[j as int]@));
                assert(strs_view(group@).take(j + 1) == strs_view(group@).take(j as int).push(
                    group@[j as int]@,
                ));
                j += 1;
            }
            assert(strs_view(group@).take(group.len() as int) == strs_view(group@));
            i += 1;
        }
        assert(self.downloads@.take(self.downloads.len() as int) == self.downloads@);
        out
    }

    /// The formats of the product, separated by `, `.
    pub fn formats(&self) -> (r: String)
        ensures
            r@ == joined(self.format_names(), ", "@),
    {
        join_strs(&self.formats_as_vec(), ", ")
    }

    /// Whether the keywords match the product's name. The name is put in
    /// lower case and cut into words at its spaces; the keywords are taken as
    /// they are.
    pub fn name_matches(&self, keywords: &[&str], mode: &MatchMode) -> (r: bool)
        ensures
            r == keywords_match(
                split_on(lowercase_of(self.human_name@), ' '),
                strs_view(keywords@),
                *mode,
            ),
    {
        let human_name = to_lowercase(self.human_name.as_str());
        lowercase_name_matches(human_name.as_str(), keywords, mode)
    }
}

/// A group of files of one product.
#[derive(Debug)]
pub struct ProductDownload {
    pub items: Vec<DownloadInfo>,
}

impl ProductDownload {
    /// The size of all files of the group together.
    pub open spec fn size(&self) -> nat {
        sum_of_files(self.items@)
    }

    /// The formats of the files of the group, in order.
    pub open spec fn format_names(&self) -> Seq<Seq<char>> {
        self.items@.map_values(|item: DownloadInfo| item.format@)
    }

    /// The size of all files of the group together, unless it is more than a
    /// `u64` holds.
    pub fn checked_total_size(&self) -> (r: Option<u64>)
        ensures
            match r {
                Some(n) => n == self.size(),
                None => self.size() > u64::MAX,
            },
    {
        let mut total: u64 = 0;
        let mut i: usize = 0;
        assert(self.items@.take(0) == Seq::<DownloadInfo>::empty());
        while i < self.items.len()
            invariant
                i <= self.items.len(),
                total == sum_of_files(self.items@.take(i as int)),
            decreases self.items.len() - i,
        {
            assert(self.items@.take(i + 1).drop_last() == self.items@.take(i as int));
            match total.checked_add(self.items[i].file_size) {
                Some(sum) => {
                    total = sum;
                },
                None => {
                    proof {
                        lemma_sum_of_files_grows(self.items@, i + 1);
                    }
                    return None;
                },
            }
            i += 1;
        }
        assert(self.items@.take(self.items.len() as int) == self.items@);
        Some(total)
    }

    /// The size of all files of the group together.
    pub fn total_size(&self) -> (r: u64)
        requires
            self.size() <= u64::MAX,
        ensures
            r == self.size(),
    {
        match self.checked_total_size() {
            Some(n) => n,
            None => 0,
        }
    }

    /// The formats of the files of the group, in order.
    pub fn formats_as_vec(&self) -> (r: Vec<&str>)
        ensures
            strs_view(r@) == self.format_names(),
    {
        let mut out: Vec<&str> = Vec::new();
        let mut i: usize = 0;
        while i < self.items.len()
            invariant
                i <= self.items.len(),
                strs_view(out@) == self.format_names().take(i as int),
            decreases self.items.len() - i,
        {
            let ghost before = strs_view(out@);
            out.push(self.items[i].format.as_str());
            assert(strs_view(out@) == before.push(self.items@[i as int].format@));
            assert(self.format_names().take(i + 1) == before.push(self.items@[i as int].format@));
            i += 1;
        }
        assert(self.format_names().take(self.items.len() as int) == self.format_names());
        out
    }

    /// The formats of the group, separated by `, `.
    pub fn formats(&self) -> (r: String)
        ensures
            r@ == joined(self.format_names(), ", "@),
    {
        join_strs(&self.formats_as_vec(), ", ")
    }
}

/// One file: its format, its size in bytes and where to fetch it.
#[derive(Debug)]
pub struct DownloadInfo {
    pub md5: String,
    pub format: String,
    pub file_size: u64,
    pub url: DownloadUrl,
}

/// The addresses of a file: the file itself and its torrent.
#[derive(Debug)]
pub struct DownloadUrl {
    pub web: String,
    pub bittorrent: String,
}

/// The key of a bundle, as the list of purchases gives it.
#[derive(Debug)]
pub struct GameKey {
    pub gamekey: String,
}

// ===========================================================================
// Monthly choices
// ===========================================================================

/// The choices of one month.
#[derive(Debug)]
pub struct HumbleChoice {
    pub options: ContentChoiceOptions,
}

/// What a month offers, under its title.
#[derive(Debug)]
pub struct ContentChoiceOptions {
    pub data: ContentChoiceData,
    pub gamekey: Option<String>,
    pub is_active_content: bool,
    pub title: String,
}

/// The games of a month.
#[derive(Debug)]
pub struct ContentChoiceData {
    /// The games of the month by their identifier, in the order of the
    /// identifiers.
    pub game_data: Vec<(String, GameData)>,
}

/// The number of leading games of `games` whose identifiers stand before
/// `id`.
pub open spec fn rank_of(games: Seq<(String, GameData)>, id: Seq<char>) -> int
    decreases games.len(),
{
    if games.len() == 0 {
        0
    } else if text_lt(games[0].0@, id) {
        1 + rank_of(games.drop_first(), id)
    } else {
        0
    }
}

proof fn lemma_rank_of(games: Seq<(String, GameData)>, id: Seq<char>)
    ensures
        0 <= rank_of(games, id) <= games.len(),
        forall|i: int| 0 <= i < rank_of(games, id) ==> text_lt((#[trigger] games[i]).0@, id),
        rank_of(games, id) < games.len() ==> !text_lt(games[rank_of(games, id)].0@, id),
    decreases games.len(),
{
    if games.len() > 0 && text_lt(games[0].0@, id) {
        let rest = games.drop_first();
        lemma_rank_of(rest, id);
        assert forall|i: int| 0 <= i < rank_of(games, id) implies text_lt(
            (#[trigger] games[i]).0@,
            id,
        ) by {
            if i > 0 {
                assert(games[i] == rest[i - 1]);
            }
        }
        if rank_of(games, id) < games.len() {
            assert(games[rank_of(games, id)] == rest[rank_of(rest, id)]);
        }
    }
}

impl ContentChoiceData {
    /// Whether the games stand in the order of their identifiers, each
    /// identifier once.
    pub open spec fn well_ordered(&self) -> bool {
        forall|i: int, j: int|
            0 <= i < j < self.game_data@.len() ==> text_lt(
                self.game_data@[i].0@,
                self.game_data@[j].0@,
            )
    }

    /// The choices of a month without any game.
    pub fn new() -> (r: Self)
        ensures
            r.game_data@.len() == 0,
            r.well_ordered(),
    {
        ContentChoiceData { game_data: Vec::new() }
    }

    /// Puts a game under its identifier. A game that was there under the
    /// same identifier gives way and is returned; else the game takes its
    /// place in the order of the identifiers.
    pub fn insert(&mut self, id: String, game: GameData) -> (r: Option<GameData>)
        requires
            old(self).well_ordered(),
        ensures
            final(self).well_ordered(),
            ({
                let before = old(self).game_data@;
                let p = rank_of(before, id@);
                if p < before.len() && before[p].0@ == id@ {
                    final(self).game_data@ == before.update(p, (id, game)) && r == Some(
                        before[p].1,
                    )
                } else {
                    final(self).game_data@ == before.insert(p, (id, game)) && r is None
                }
            }),
    {
        let ghost before = self.game_data@;
        let mut p: usize = 0;
        assert(before.skip(0) == before);
        while p < self.game_data.len() && text_less(self.game_data[p].0.as_str(), id.as_str())
            invariant
                p <= self.game_data.len(),
                self.game_data@ == before,
                rank_of(before, id@) == p + rank_of(before.skip(p as int), id@),
            decreases self.game_data.len() - p,
        {
            assert(before.skip(p as int)[0] == before[p as int]);
            assert(before.skip(p as int).drop_first() == before.skip(p + 1));
            p += 1;
        }
        proof {
            if p < before.len() {
                assert(before.skip(p as int)[0] == before[p as int]);
            }
            lemma_rank_of(before, id@);
        }
        let found = p < self.game_data.len() && str_eq(self.game_data[p].0.as_str(), id.as_str());
        if found {
            let gone = self.game_data.remove(p);
            self.game_data.insert(p, (id, game));
            assert(self.game_data@ == before.update(p as int, (id, game)));
            assert forall|i: int, j: int| 0 <= i < j < self.game_data@.len() implies text_lt(
                self.game_data@[i].0@,
                self.game_data@[j].0@,
            ) by {
                assert(self.game_data@[i].0@ == before[i].0@);
                assert(self.game_data@[j].0@ == before[j].0@);
            }
            Some(gone.1)
        } else {
            self.game_data.insert(p, (id, game));
            let ghost after = self.game_data@;
            assert forall|i: int, j: int| 0 <= i < j < after.len() implies text_lt(
                after[i].0@,
                after[j].0@,
            ) by {
                if j == p {
                    assert(after[i] == before[i]);
                } else if i == p {
                    assert(after[j] == before[j - 1]);
                    lemma_text_lt_is_total(id@, before[p as int].0@);
                    if j - 1 > p {
                        lemma_text_lt_is_transitive(id@, before[p as int].0@, before[j - 1].0@);
                    }
                } else {
                    let bi = if i < p {
                        i
                    } else {
                        i - 1
                    };
                    let bj = if j < p {
                        j
                    } else {
                        j - 1
                    };
                    assert(after[i] == before[bi]);
                    assert(after[j] == before[bj]);
                }
            }
            None
        }
    }
}

/// One game of a month, with the keys it can be claimed as.
#[derive(Debug)]
pub struct GameData {
    pub title: String,
    pub tpkds: Vec<Tpkd>,
}

/// One key of a game of the month.
#[derive(Debug)]
pub struct Tpkd {
    pub gamekey: Option<String>,
    pub human_name: String,
    pub redeemed_key_val: Option<String>,
}

impl Tpkd {
    /// `NotAvailable` without a game key; with one, `Yes` where a key value
    /// has been redeemed and `No` where none has.
    pub fn claim_status(&self) -> (r: ClaimStatus)
        ensures
            r == if self.gamekey is None {
                ClaimStatus::NotAvailable
            } else if self.redeemed_key_val is Some {
                ClaimStatus::Yes
            } else {
                ClaimStatus::No
            },
    {
        let redeemed = self.redeemed_key_val.is_some();
        let is_active = self.gamekey.is_some();
        if is_active && redeemed {
            ClaimStatus::Yes
        } else if is_active {
            ClaimStatus::No
        } else {
            ClaimStatus::NotAvailable
        }
    }
}

/// The month whose choices are asked for.
#[derive(Clone, Debug)]
pub enum ChoicePeriod {
    Current,
    Date { month: String, year: u16 },
}

/// A period with its month as text.
pub enum PeriodView {
    Current,
    Date { month: Seq<char>, year: u16 },
}

impl View for ChoicePeriod {
    type V = PeriodView;

    open spec fn view(&self) -> PeriodView {
        match self {
            ChoicePeriod::Current => PeriodView::Current,
            ChoicePeriod::Date { month, year } => PeriodView::Date { month: month@, year: *year },
        }
    }
}

/// Whether `m` is the English name of a month, in lower case.
pub open spec fn is_month_name(m: Seq<char>) -> bool {
    m == "january"@ || m == "february"@ || m == "march"@ || m == "april"@ || m == "may"@ || m
        == "june"@ || m == "july"@ || m == "august"@ || m == "september"@ || m == "october"@ || m
        == "november"@ || m == "december"@
}

/// What a period written in lower case stands for, or why it stands for
/// none: `current`, or a month's name, a dash and a year from 2018 to 2030.
pub open spec fn period_of(lower: Seq<char>) -> Result<PeriodView, Seq<char>> {
    if lower == "current"@ {
        Ok(PeriodView::Current)
    } else {
        let parts = split_on(lower, '-');
        if parts.len() != 2 {
            Err("invalid format. expected {month name}-{year}"@)
        } else if !is_month_name(parts[0]) {
            Err("invalid month: "@ + parts[0])
        } else {
            match parse_unsigned(parts[1], u16::MAX as nat) {
                Err(e) => Err("invalid year value: "@ + e.message_text()),
                Ok(year) => if year < 2018 || year > 2030 {
                    Err("years out of 2018-2030 range are not supported"@)
                } else {
                    Ok(PeriodView::Date { month: parts[0], year: year as u16 })
                },
            }
        }
    }
}

/// The view of what reading a period gave.
pub open spec fn period_result_view(r: Result<ChoicePeriod, String>) -> Result<
    PeriodView,
    Seq<char>,
> {
    match r {
        Ok(p) => Ok(p@),
        Err(e) => Err(e@),
    }
}

fn month_name_known(m: &str) -> (r: bool)
    ensures
        r == is_month_name(m@),
{
    str_eq(m, "january") || str_eq(m, "february") || str_eq(m, "march") || str_eq(m, "april")
        || str_eq(m, "may") || str_eq(m, "june") || str_eq(m, "july") || str_eq(m, "august")
        || str_eq(m, "september") || str_eq(m, "october") || str_eq(m, "november") || str_eq(
        m,
        "december",
    )
}

impl ChoicePeriod {
    /// The period as the storefront's addresses spell it.
    pub open spec fn text(&self) -> Seq<char> {
        match self {
            ChoicePeriod::Current => "home"@,
            ChoicePeriod::Date { month, year } => month@ + "-"@ + decimal_text(*year as nat),
        }
    }

    /// The period as the storefront's addresses spell it: `home` for the
    /// current month, else the month, a dash and the year.
    pub fn to_string(&self) -> (r: String)
        ensures
            r@ == self.text(),
    {
        match self {
            ChoicePeriod::Current => "home".to_owned(),
            ChoicePeriod::Date { month, year } => {
                let y = format_u64(*year as u64);
                concat3(month.as_str(), "-", y.as_str())
            },
        }
    }

    /// Reads a period that is already in lower case.
    pub fn from_lowercase(value: &str) -> (r: Result<ChoicePeriod, String>)
        ensures
            period_result_view(r) == period_of(value@),
    {
        if str_eq(value, "current") {
            return Ok(ChoicePeriod::Current);
        }
        let chars = chars_of(value);
        let parts = split(&chars, '-');
        if parts.len() != 2 {
            return Err("invalid format. expected {month name}-{year}".to_owned());
        }
        assert(vecs_view(parts@)[0] == parts@[0]@);
        assert(vecs_view(parts@)[1] == parts@[1]@);
        let month = string_of(&parts[0]);
        if !month_name_known(month.as_str()) {
            return Err(concat2("invalid month: ", month.as_str()));
        }
        assert(parts@[1]@.subrange(0, parts@[1]@.len() as int) == parts@[1]@);
        match parse_range(&parts[1], 0, parts[1].len(), 65535) {
            Err(e) => Err(concat2("invalid year value: ", e.message())),
            Ok(year) => {
                if year < 2018 || year > 2030 {
                    Err("years out of 2018-2030 range are not supported".to_owned())
                } else {
                    Ok(ChoicePeriod::Date { month, year: year as u16 })
                }
            },
        }
    }

    /// Reads a period, whatever the case of its letters: `current`, or a
    /// month's name, a dash and a year from 2018 to 2030.
    pub fn try_from(value: &str) -> (r: Result<ChoicePeriod, String>)
        ensures
            period_result_view(r) == period_of(lowercase_of(value@)),
    {
        let lower = to_lowercase(value);
        ChoicePeriod::from_lowercase(lower.as_str())
    }
}

/// The match mode that a word in lower case names.
pub open spec fn match_mode_of(lower: Seq<char>) -> Option<MatchMode> {
    if lower == "all"@ {
        Some(MatchMode::All)
    } else if lower == "any"@ {
        Some(MatchMode::Any)
    } else {
        None
    }
}

impl MatchMode {
    /// Picks the mode that `lower` names; the error quotes `value`, the word
    /// as it was given.
    pub fn from_lowercase(lower: &str, value: &str) -> (r: Result<MatchMode, String>)
        ensures
            match r {
                Ok(mode) => match_mode_of(lower@) == Some(mode),
                Err(e) => match_mode_of(lower@) is None && e@ == "invalid match mode: "@ + value@,
            },
    {
        if str_eq(lower, "all") {
            Ok(MatchMode::All)
        } else if str_eq(lower, "any") {
            Ok(MatchMode::Any)
        } else {
            Err(concat2("invalid match mode: ", value))
        }
    }

    /// Reads `all` or `any`, whatever the case of the letters.
    pub fn try_from(value: &str) -> (r: Result<MatchMode, String>)
        ensures
            match r {
                Ok(mode) => match_mode_of(lowercase_of(value@)) == Some(mode),
                Err(e) => match_mode_of(lowercase_of(value@)) is None && e@
                    == "invalid match mode: "@ + value@,
            },
    {
        let lowercase = to_lowercase(value);
        MatchMode::from_lowercase(lowercase.as_str(), value)
    }
}

} // verus!

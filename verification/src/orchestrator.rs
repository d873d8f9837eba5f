//! What downloading a bundle consists of: the selection built from the
//! request, and the ordered steps that carry it out.

use crate::models::{Bundle, DownloadInfo, Product, ProductDownload};
use crate::selection::{select, selected_positions, Selection};
use crate::text::{
    borrow_all, chars_of, concat2, concat3, lowercase_of, split, split_on, string_of,
    strings_view, to_lowercase, vecs_view,
};
use crate::util::{
    byte_string_to_number, extract_filename_from_url, file_name_in, in_some_range,
    invalid_tokens, invalid_tokens_message, list_contains, lowercase_all, lowered,
    parsed_byte_count, replace_invalid_chars_in_filename, sanitized, strictly_increasing,
    text_view, union_usize_ranges, url_path_segments,
};
use vstd::prelude::*;

verus! {

// ---------------------------------------------------------------------------
// From the request to the selection
// ---------------------------------------------------------------------------

/// The tokens of an item-number expression: what stands between its commas.
pub open spec fn item_tokens(expression: Seq<char>) -> Seq<Seq<char>> {
    split_on(expression, ',')
}

/// Resolves an item-number expression, such as `1,3,5-10`, against a catalog
/// of `catalog_len` products. No expression asks for no item in particular.
pub fn resolve_item_numbers(item_numbers: Option<&str>, catalog_len: usize) -> (r: Result<
    Vec<usize>,
    String,
>)
    ensures
        match (item_numbers, r) {
            (None, Ok(v)) => v@.len() == 0,
            (None, Err(_)) => false,
            (Some(e), Ok(v)) => {
                &&& invalid_tokens(item_tokens(e@), catalog_len as nat).len() == 0
                &&& strictly_increasing(v@)
                &&& forall|x: usize|
                    v@.contains(x) <==> in_some_range(item_tokens(e@), catalog_len as nat, x)
                &&& forall|i: int| 0 <= i < v@.len() ==> v@[i] >= 1
            },
            (Some(e), Err(msg)) => {
                &&& invalid_tokens(item_tokens(e@), catalog_len as nat).len() > 0
                &&& msg@ == invalid_tokens_message(item_tokens(e@), catalog_len as nat)
            },
        },
{
    match item_numbers {
        None => Ok(Vec::new()),
        Some(expression) => {
            let pieces = split(&chars_of(expression), ',');
            let mut tokens: Vec<String> = Vec::new();
            let mut i: usize = 0;
            while i < pieces.len()
                invariant
                    i <= pieces.len(),
                    strings_view(tokens@) == vecs_view(pieces@).take(i as int),
                decreases pieces.len() - i,
            {
                let ghost before = strings_view(tokens@);
                let token = string_of(&pieces[i]);
                tokens.push(token);
                assert(strings_view(tokens@) == before.push(pieces@[i as int]@));
                assert(vecs_view(pieces@).take(i + 1) == before.push(pieces@[i as int]@));
                i += 1;
            }
            assert(vecs_view(pieces@).take(pieces.len() as int) == vecs_view(pieces@));
            let borrowed = borrow_all(&tokens);
            union_usize_ranges(borrowed.as_slice(), catalog_len)
        },
    }
}

/// The error for a size limit that cannot be read.
pub open spec fn bad_size_message(text: Seq<char>) -> Seq<char> {
    "failed to parse the specified size: "@ + text
}

/// The size limit that a request names. `parsed` is what the text of the
/// limit was read as; a text that was read as nothing is an error.
pub fn max_size_from(text: &str, parsed: Option<u64>) -> (r: Result<u64, String>)
    ensures
        match parsed {
            Some(n) => r == Ok::<u64, String>(n),
            None => r matches Err(message) && message@ == bad_size_message(text@),
        },
{
    match parsed {
        Some(n) => Ok(n),
        None => Err(concat2("failed to parse the specified size: ", text)),
    }
}

/// The size limit of a request: none, written as 0, where the request names
/// none; else the number of bytes that the text, such as `14MB` or `4GiB`,
/// stands for.
pub fn interpret_max_size(max_size: Option<&str>) -> (r: Result<u64, String>)
    ensures
        match max_size {
            None => r == Ok::<u64, String>(0),
            Some(text) => match parsed_byte_count(text@) {
                Some(n) => r == Ok::<u64, String>(n),
                None => r matches Err(message) && message@ == bad_size_message(text@),
            },
        },
{
    match max_size {
        None => Ok(0),
        Some(text) => max_size_from(text, byte_string_to_number(text)),
    }
}

/// Builds the selection of a request against a catalog of `catalog_len`
/// products. The formats are taken as they are given.
pub fn selection_from_request(
    item_numbers: Option<&str>,
    catalog_len: usize,
    formats: Vec<String>,
    max_size: u64,
    torrents_only: bool,
) -> (r: Result<Selection, String>)
    ensures
        match r {
            Ok(selection) => {
                &&& selection.formats == formats
                &&& selection.max_size == max_size
                &&& selection.torrents_only == torrents_only
                &&& strictly_increasing(selection.item_indices@)
                &&& forall|i: int|
                    0 <= i < selection.item_indices@.len() ==> selection.item_indices@[i] >= 1
                &&& match item_numbers {
                    None => selection.item_indices@.len() == 0,
                    Some(e) => invalid_tokens(item_tokens(e@), catalog_len as nat).len() == 0
                        && forall|x: usize|
                        selection.item_indices@.contains(x) <==> in_some_range(
                            item_tokens(e@),
                            catalog_len as nat,
                            x,
                        ),
                }
            },
            Err(message) => item_numbers matches Some(e) && invalid_tokens(
                item_tokens(e@),
                catalog_len as nat,
            ).len() > 0 && message@ == invalid_tokens_message(item_tokens(e@), catalog_len as nat),
        },
{
    match resolve_item_numbers(item_numbers, catalog_len) {
        Ok(item_indices) => Ok(Selection { item_indices, formats, max_size, torrents_only }),
        Err(message) => Err(message),
    }
}

// ---------------------------------------------------------------------------
// The steps of a download
// ---------------------------------------------------------------------------

/// One thing to do, or to report, while a bundle is downloaded.
#[derive(Debug)]
pub enum Step {
    /// Announce the product and make sure its directory exists.
    EnterProduct { title: String, directory: String },
    /// Say that a file of this format is left out.
    Skip { format: String },
    /// Download `url` to `file_name` in the directory of the product.
    Fetch { url: String, file_name: String },
    /// Stop with this error.
    Fail { message: String },
}

/// A step with its texts as sequences.
pub enum StepView {
    EnterProduct { title: Seq<char>, directory: Seq<char> },
    Skip { format: Seq<char> },
    Fetch { url: Seq<char>, file_name: Seq<char> },
    Fail { message: Seq<char> },
}

impl View for Step {
    type V = StepView;

    open spec fn view(&self) -> StepView {
        match self {
            Step::EnterProduct { title, directory } => StepView::EnterProduct {
                title: title@,
                directory: directory@,
            },
            Step::Skip { format } => StepView::Skip { format: format@ },
            Step::Fetch { url, file_name } => StepView::Fetch { url: url@, file_name: file_name@ },
            Step::Fail { message } => StepView::Fail { message: message@ },
        }
    }
}

/// The views of a list of steps.
pub open spec fn steps_view(steps: Seq<Step>) -> Seq<StepView> {
    steps.map_values(|s: Step| s@)
}

/// Whether a file whose format reads `lower_format` in lower case is asked
/// for: any file where no format was named, else one whose format is among
/// those named, letter case set aside.
pub open spec fn wants_format(formats: Seq<Seq<char>>, lower_format: Seq<char>) -> bool {
    formats.len() == 0 || lowered(formats).contains(lower_format)
}

/// Whether a file whose format reads `lower_format` in lower case is asked
/// for by `formats`.
pub fn format_is_wanted(formats: &Vec<String>, lower_format: &str) -> (r: bool)
    ensures
        r == wants_format(strings_view(formats@), lower_format@),
{
    if formats.len() == 0 {
        return true;
    }
    let named = borrow_all(formats);
    let lower = lowercase_all(named.as_slice());
    list_contains(&lower, lower_format)
}

/// The error for a URL that ends in no file name.
pub open spec fn no_file_name_message(url: Seq<char>) -> Seq<char> {
    "Cannot get file name from URL '"@ + url + "'"@
}

/// The step for one file, given the lower-case form of its format and the
/// file name found in its URL: left out where its format is not asked for,
/// fetched under that name, or a failure where the URL has no file name.
pub open spec fn step_for(
    format: Seq<char>,
    lower_format: Seq<char>,
    url: Seq<char>,
    file_name: Option<Seq<char>>,
    formats: Seq<Seq<char>>,
) -> StepView {
    if !wants_format(formats, lower_format) {
        StepView::Skip { format }
    } else {
        match file_name {
            Some(name) => StepView::Fetch { url, file_name: name },
            None => StepView::Fail { message: no_file_name_message(url) },
        }
    }
}

/// The address to fetch a file from: its torrent or the file itself.
pub open spec fn download_url(item: DownloadInfo, torrents_only: bool) -> Seq<char> {
    if torrents_only {
        item.url.bittorrent@
    } else {
        item.url.web@
    }
}

/// The step for one file of the catalog.
pub open spec fn file_step(item: DownloadInfo, selection: Selection) -> StepView {
    let url = download_url(item, selection.torrents_only);
    step_for(
        item.format@,
        lowercase_of(item.format@),
        url,
        file_name_in(url_path_segments(url)),
        strings_view(selection.formats@),
    )
}

/// Whether the plan has ended in a failure. Nothing follows a failure.
pub open spec fn has_failed(plan: Seq<StepView>) -> bool {
    plan.len() > 0 && plan.last() is Fail
}

/// `plan` followed by the steps for `items`, up to the first failure.
pub open spec fn with_files(plan: Seq<StepView>, items: Seq<DownloadInfo>, selection: Selection)
    -> Seq<StepView>
    decreases items.len(),
{
    if items.len() == 0 {
        plan
    } else {
        let before = with_files(plan, items.drop_last(), selection);
        if has_failed(before) {
            before
        } else {
            before.push(file_step(items.last(), selection))
        }
    }
}

/// `plan` followed by the steps for the files of `downloads`, group after
/// group, up to the first failure.
pub open spec fn with_downloads(
    plan: Seq<StepView>,
    downloads: Seq<ProductDownload>,
    selection: Selection,
) -> Seq<StepView>
    decreases downloads.len(),
{
    if downloads.len() == 0 {
        plan
    } else {
        with_files(
            with_downloads(plan, downloads.drop_last(), selection),
            downloads.last().items@,
            selection,
        )
    }
}

/// Whether a product is over the size limit, where there is one.
pub open spec fn over_limit(product: Product, selection: Selection) -> bool {
    selection.max_size > 0 && product.size() > selection.max_size
}

/// `plan` followed by the steps for one product: none where the plan has
/// failed or the product is over the size limit; else the product is
/// entered, with its name made safe as the directory, and its files follow.
pub open spec fn with_product(plan: Seq<StepView>, product: Product, selection: Selection) -> Seq<
    StepView,
> {
    if has_failed(plan) || over_limit(product, selection) {
        plan
    } else {
        with_downloads(
            plan.push(
                StepView::EnterProduct {
                    title: product.human_name@,
                    directory: sanitized(product.human_name@),
                },
            ),
            product.downloads@,
            selection,
        )
    }
}

/// `plan` followed by the steps for `products`, in order, up to the first
/// failure.
pub open spec fn with_products(plan: Seq<StepView>, products: Seq<Product>, selection: Selection)
    -> Seq<StepView>
    decreases products.len(),
{
    if products.len() == 0 {
        plan
    } else {
        with_product(
            with_products(plan, products.drop_last(), selection),
            products.last(),
            selection,
        )
    }
}

/// Whether no step but the last is a failure.
pub open spec fn fails_only_at_the_end(plan: Seq<StepView>) -> bool {
    forall|k: int| 0 <= k < plan.len() - 1 ==> !(#[trigger] plan[k] is Fail)
}

/// Adding files to a plan adds no step behind a failure.
pub proof fn lemma_with_files(plan: Seq<StepView>, items: Seq<DownloadInfo>, selection: Selection)
    requires
        fails_only_at_the_end(plan),
    ensures
        fails_only_at_the_end(with_files(plan, items, selection)),
        plan.is_prefix_of(with_files(plan, items, selection)),
        has_failed(plan) ==> with_files(plan, items, selection) == plan,
    decreases items.len(),
{
    if items.len() > 0 {
        lemma_with_files(plan, items.drop_last(), selection);
        let before = with_files(plan, items.drop_last(), selection);
        if !has_failed(before) {
            let after = before.push(file_step(items.last(), selection));
            assert forall|k: int| 0 <= k < after.len() - 1 implies !(#[trigger] after[k] is Fail) by {
                assert(after[k] == before[k]);
            }
            assert(plan.is_prefix_of(after)) by {
                assert(after.subrange(0, plan.len() as int) == before.subrange(
                    0,
                    plan.len() as int,
                ));
            }
        }
    } else {
        assert(plan.subrange(0, plan.len() as int) == plan);
    }
}

/// Adding groups of files to a plan adds no step behind a failure.
pub proof fn lemma_with_downloads(
    plan: Seq<StepView>,
    downloads: Seq<ProductDownload>,
    selection: Selection,
)
    requires
        fails_only_at_the_end(plan),
    ensures
        fails_only_at_the_end(with_downloads(plan, downloads, selection)),
        has_failed(plan) ==> with_downloads(plan, downloads, selection) == plan,
    decreases downloads.len(),
{
    if downloads.len() > 0 {
        lemma_with_downloads(plan, downloads.drop_last(), selection);
        lemma_with_files(
            with_downloads(plan, downloads.drop_last(), selection),
            downloads.last().items@,
            selection,
        );
    }
}

/// A plan ends at its first failure: whatever the products, no step but
/// the last is a failure.
pub proof fn lemma_plan_ends_at_failure(
    plan: Seq<StepView>,
    products: Seq<Product>,
    selection: Selection,
)
    requires
        fails_only_at_the_end(plan),
    ensures
        fails_only_at_the_end(with_products(plan, products, selection)),
        has_failed(plan) ==> with_products(plan, products, selection) == plan,
    decreases products.len(),
{
    if products.len() > 0 {
        lemma_plan_ends_at_failure(plan, products.drop_last(), selection);
        let before = with_products(plan, products.drop_last(), selection);
        let product = products.last();
        if !(has_failed(before) || over_limit(product, selection)) {
            let entered = before.push(
                StepView::EnterProduct {
                    title: product.human_name@,
                    directory: sanitized(product.human_name@),
                },
            );
            assert forall|k: int| 0 <= k < entered.len() - 1 implies !(#[trigger] entered[k]
                is Fail) by {
                assert(entered[k] == before[k]);
            }
            lemma_with_downloads(entered, product.downloads@, selection);
        }
    }
}

/// The two format checks agree: a product that passes the selection's
/// format test has a file that the per-file check asks for, whatever the
/// letter case of the formats on either side.
pub proof fn lemma_admitted_product_has_a_wanted_file(selection: Selection, product: Product)
    requires
        selection.admits_formats(product.format_names()),
        selection.formats@.len() > 0,
    ensures
        exists|i: int|
            0 <= i < product.format_names().len() && wants_format(
                strings_view(selection.formats@),
                lowercase_of(#[trigger] product.format_names()[i]),
            ),
{
    let offered = lowered(product.format_names());
    let asked = lowered(strings_view(selection.formats@));
    let (i, j) = choose|i: int, j: int|
        0 <= i < offered.len() && 0 <= j < asked.len() && offered[i] == asked[j];
    assert(asked.contains(offered[i]));
    assert(offered[i] == lowercase_of(product.format_names()[i]));
    assert(0 <= i < product.format_names().len() && wants_format(
        strings_view(selection.formats@),
        lowercase_of(product.format_names()[i]),
    ));
}

/// A product that the selection admits is not over the size limit: the
/// check of the limit while planning leaves no selected product out.
pub proof fn lemma_selected_is_within_limit(selection: Selection, index: int, product: Product)
    requires
        selection.admits(index, product),
    ensures
        !over_limit(product, selection),
{
}

/// Decides the step for one file from its format, that format in lower
/// case, its address and the file name found in the address. The formats
/// asked for are held against the file's in lower case, whatever the case
/// they were given in.
pub fn step_for_file(
    format: &str,
    lower_format: &str,
    url: &str,
    file_name: Option<String>,
    formats: &Vec<String>,
) -> (r: Step)
    ensures
        r@ == step_for(format@, lower_format@, url@, text_view(file_name), strings_view(formats@)),
{
    if !format_is_wanted(formats, lower_format) {
        return Step::Skip { format: format.to_owned() };
    }
    match file_name {
        Some(name) => Step::Fetch { url: url.to_owned(), file_name: name },
        None => Step::Fail { message: concat3("Cannot get file name from URL '", url, "'") },
    }
}

fn plan_file(item: &DownloadInfo, selection: &Selection) -> (r: Step)
    ensures
        r@ == file_step(*item, *selection),
{
    let url: &str = if selection.torrents_only {
        item.url.bittorrent.as_str()
    } else {
        item.url.web.as_str()
    };
    let lower = to_lowercase(item.format.as_str());
    let wanted = format_is_wanted(&selection.formats, lower.as_str());
    let file_name = if wanted {
        extract_filename_from_url(url)
    } else {
        None
    };
    step_for_file(item.format.as_str(), lower.as_str(), url, file_name, &selection.formats)
}

fn ends_in_failure(plan: &Vec<Step>) -> (r: bool)
    ensures
        r == has_failed(steps_view(plan@)),
{
    if plan.len() == 0 {
        return false;
    }
    match &plan[plan.len() - 1] {
        Step::Fail { .. } => true,
        _ => false,
    }
}

fn add_files(plan: &mut Vec<Step>, items: &Vec<DownloadInfo>, selection: &Selection)
    ensures
        steps_view(final(plan)@) == with_files(steps_view(old(plan)@), items@, *selection),
{
    let mut i: usize = 0;
    assert(items@.take(0) == Seq::<DownloadInfo>::empty());
    while i < items.len()
        invariant
            i <= items.len(),
            steps_view(plan@) == with_files(
                steps_view(old(plan)@),
                items@.take(i as int),
                *selection,
            ),
        decreases items.len() - i,
    {
        assert(items@.take(i + 1).drop_last() == items@.take(i as int));
        if !ends_in_failure(plan) {
            let ghost before = steps_view(plan@);
            let step = plan_file(&items[i], selection);
            plan.push(step);
            assert(steps_view(plan@) == before.push(step@));
        }
        i += 1;
    }
    assert(items@.take(items.len() as int) == items@);
}

fn add_downloads(plan: &mut Vec<Step>, downloads: &Vec<ProductDownload>, selection: &Selection)
    ensures
        steps_view(final(plan)@) == with_downloads(
            steps_view(old(plan)@),
            downloads@,
            *selection,
        ),
{
    let mut i: usize = 0;
    assert(downloads@.take(0) == Seq::<ProductDownload>::empty());
    while i < downloads.len()
        invariant
            i <= downloads.len(),
            steps_view(plan@) == with_downloads(
                steps_view(old(plan)@),
                downloads@.take(i as int),
                *selection,
            ),
        decreases downloads.len() - i,
    {
        assert(downloads@.take(i + 1).drop_last() == downloads@.take(i as int));
        add_files(plan, &downloads[i].items, selection);
        i += 1;
    }
    assert(downloads@.take(downloads.len() as int) == downloads@);
}

fn add_product(plan: &mut Vec<Step>, product: &Product, selection: &Selection)
    ensures
        steps_view(final(plan)@) == with_product(steps_view(old(plan)@), *product, *selection),
{
    if ends_in_failure(plan) {
        return ;
    }
    if selection.max_size > 0 {
        let over = match product.checked_total_size() {
            Some(size) => size > selection.max_size,
            None => true,
        };
        if over {
            return ;
        }
    }
    let ghost before = steps_view(plan@);
    let step = Step::EnterProduct {
        title: product.human_name.clone(),
        directory: replace_invalid_chars_in_filename(product.human_name.as_str()),
    };
    plan.push(step);
    assert(steps_view(plan@) == before.push(step@));
    add_downloads(plan, &product.downloads, selection);
}

/// The steps that download `products`, in order: each product is entered
/// and its files are fetched or left out, until a file without a file name
/// ends the plan.
pub fn plan_products(products: &Vec<&Product>, selection: &Selection) -> (r: Vec<Step>)
    ensures
        steps_view(r@) == with_products(
            Seq::<StepView>::empty(),
            products@.map_values(|p: &Product| *p),
            *selection,
        ),
        fails_only_at_the_end(steps_view(r@)),
{
    proof {
        lemma_plan_ends_at_failure(
            Seq::<StepView>::empty(),
            products@.map_values(|p: &Product| *p),
            *selection,
        );
    }
    let mut plan: Vec<Step> = Vec::new();
    let ghost all = products@.map_values(|p: &Product| *p);
    let mut i: usize = 0;
    assert(all.take(0) == Seq::<Product>::empty());
    assert(steps_view(plan@) == Seq::<StepView>::empty());
    while i < products.len()
        invariant
            i <= products.len(),
            all == products@.map_values(|p: &Product| *p),
            steps_view(plan@) == with_products(
                Seq::<StepView>::empty(),
                all.take(i as int),
                *selection,
            ),
        decreases products.len() - i,
    {
        assert(all.take(i + 1).drop_last() == all.take(i as int));
        assert(all.take(i + 1).last() == *products@[i as int]);
        add_product(&mut plan, products[i], selection);
        i += 1;
    }
    assert(all.take(products.len() as int) == all);
    plan
}

/// What to do for one bundle.
#[derive(Debug)]
pub enum BundlePlan {
    /// The selection admits no product: there is nothing to download.
    NothingToDownload,
    /// Make sure `root` exists, where one is named, and carry out `steps`
    /// inside it; without a `root` the current directory takes its place.
    Download { root: Option<String>, steps: Vec<Step> },
}

/// The products at the selected positions.
pub open spec fn selected_products(products: Seq<Product>, selection: Selection) -> Seq<Product> {
    selected_positions(products, selection, products.len() as int).map_values(
        |i: int| products[i],
    )
}

/// Plans the download of a bundle: filters its products by the selection
/// and lists the steps for those that remain. The root directory is the
/// bundle's name made safe, unless the files go to the current directory.
pub fn plan_bundle(bundle: &Bundle, selection: &Selection, cur_dir: bool) -> (r: BundlePlan)
    ensures
        match r {
            BundlePlan::NothingToDownload => selected_products(bundle.products@, *selection).len()
                == 0,
            BundlePlan::Download { root, steps } => {
                &&& selected_products(bundle.products@, *selection).len() > 0
                &&& text_view(root) == if cur_dir {
                    None
                } else {
                    Some(sanitized(bundle.details.human_name@))
                }
                &&& steps_view(steps@) == with_products(
                    Seq::<StepView>::empty(),
                    selected_products(bundle.products@, *selection),
                    *selection,
                )
                &&& fails_only_at_the_end(steps_view(steps@))
            },
        },
{
    let products = select(&bundle.products, selection);
    assert(products@.map_values(|p: &Product| *p) == selected_products(
        bundle.products@,
        *selection,
    ));
    if products.len() == 0 {
        return BundlePlan::NothingToDownload;
    }
    let root = if cur_dir {
        None
    } else {
        Some(replace_invalid_chars_in_filename(bundle.details.human_name.as_str()))
    };
    let steps = plan_products(&products, selection);
    BundlePlan::Download { root, steps }
}

} // verus!

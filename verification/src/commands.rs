//! What the commands of the client decide and what they show, short of the
//! requests themselves and of the printing.

use crate::config::Config;
use crate::decimal::{decimal_text, format_u64};
use crate::humble_api::ApiError;
use crate::key_match::{matches_of, KeyMatch};
use crate::models::{claim_status_of, redeemed_flags, Bundle, ClaimStatus};
use crate::text::{
    chars_of, concat2, concat3, join, joined, lines_of, list_lines, lowercase_of, split,
    split_on, str_eq, string_of, strings_view, to_lowercase, vecs_view,
};
use crate::util::{humanize_bytes, humanized_size, list_contains, text_view};
use vstd::prelude::*;

verus! {

/// The configuration to store for a session key.
pub fn auth(session_key: &str) -> (r: Config)
    ensures
        r.session_key@ == session_key@,
{
    Config { session_key: session_key.to_owned() }
}

// ---------------------------------------------------------------------------
// Failed requests
// ---------------------------------------------------------------------------

/// How a failed request is told to the user. An answer's status decides:
/// 401 and 404 have their own hints, any other status is shown as it is
/// written out. A failure without a status is shown in its own words.
pub open spec fn http_error_message(e: ApiError) -> Seq<char> {
    match e {
        ApiError::NetworkError(failure) => match failure.status {
            Some(status) => if status.code == 401 {
                "Unauthorized request (401). Is the session key correct?"@
            } else if status.code == 404 {
                "Bundle not found (404). Is the bundle key correct?"@
            } else {
                "failed with status: "@ + status.text@
            },
            None => "failed: "@ + e.text(),
        },
        _ => "failed: "@ + e.text(),
    }
}

/// Passes a result on, its error turned into the message for the user.
pub fn handle_http_errors<T>(input: Result<T, ApiError>) -> (r: Result<T, String>)
    ensures
        match input {
            Ok(value) => r == Ok::<T, String>(value),
            Err(e) => r matches Err(message) && message@ == http_error_message(e),
        },
{
    match input {
        Ok(value) => Ok(value),
        Err(e) => {
            let message = match &e {
                ApiError::NetworkError(failure) => match &failure.status {
                    Some(status) => if status.code == 401 {
                        "Unauthorized request (401). Is the session key correct?".to_owned()
                    } else if status.code == 404 {
                        "Bundle not found (404). Is the bundle key correct?".to_owned()
                    } else {
                        concat2("failed with status: ", status.text.as_str())
                    },
                    None => concat2("failed: ", e.to_string().as_str()),
                },
                _ => concat2("failed: ", e.to_string().as_str()),
            };
            Err(message)
        },
    }
}

// ---------------------------------------------------------------------------
// Finding a bundle by the beginning of its key
// ---------------------------------------------------------------------------

/// What a search for a bundle key came to.
#[derive(Debug)]
pub struct KeyLookup {
    /// The key, where exactly one key matches.
    pub key: Option<String>,
    /// What to tell the user where none or several match.
    pub notices: Vec<String>,
}

/// The key that the matches single out: the only one.
pub open spec fn found_key(matches: Seq<Seq<char>>) -> Option<Seq<char>> {
    if matches.len() == 1 {
        Some(matches[0])
    } else {
        None
    }
}

/// What the user is told about the matches of `target`: nothing for a
/// single match, that there is none, or that there are several and which.
pub open spec fn lookup_notices(matches: Seq<Seq<char>>, target: Seq<char>) -> Seq<Seq<char>> {
    if matches.len() == 1 {
        Seq::<Seq<char>>::empty()
    } else if matches.len() == 0 {
        seq!["No bundle matches '"@ + target + "'"@]
    } else {
        seq!["More than one bundle matches '"@ + target + "':"@] + matches
    }
}

/// Sorts out the matches of a search for `key_to_find`.
pub fn lookup_from_matches(matches: Vec<String>, key_to_find: &str) -> (r: KeyLookup)
    ensures
        text_view(r.key) == found_key(strings_view(matches@)),
        strings_view(r.notices@) == lookup_notices(strings_view(matches@), key_to_find@),
{
    let mut matches = matches;
    let ghost all = strings_view(matches@);
    if matches.len() == 1 {
        let ghost before = matches@;
        let key = matches.pop();
        assert(key is Some ==> all[0] == key->0@);
        let notices: Vec<String> = Vec::new();
        assert(strings_view(notices@) == Seq::<Seq<char>>::empty());
        KeyLookup { key, notices }
    } else if matches.len() == 0 {
        let mut notices: Vec<String> = Vec::new();
        notices.push(concat3("No bundle matches '", key_to_find, "'"));
        assert(strings_view(notices@) == seq!["No bundle matches '"@ + key_to_find@ + "'"@]);
        KeyLookup { key: None, notices }
    } else {
        let mut notices: Vec<String> = Vec::new();
        notices.push(concat3("More than one bundle matches '", key_to_find, "':"));
        let ghost head = strings_view(notices@);
        assert(head == seq!["More than one bundle matches '"@ + key_to_find@ + "':"@]);
        let mut i: usize = 0;
        while i < matches.len()
            invariant
                i <= matches.len(),
                all == strings_view(matches@),
                strings_view(notices@) == head + all.take(i as int),
            decreases matches.len() - i,
        {
            let ghost before = strings_view(notices@);
            notices.push(matches[i].clone());
            assert(strings_view(notices@) == before.push(matches@[i as int]@));
            assert(all.take(i + 1) == all.take(i as int).push(matches@[i as int]@));
            i += 1;
        }
        assert(all.take(matches.len() as int) == all);
        KeyLookup { key: None, notices }
    }
}

/// Finds the bundle key that `key_to_find` begins, among `all_keys`.
pub fn find_key(all_keys: Vec<String>, key_to_find: &str) -> (r: KeyLookup)
    ensures
        text_view(r.key) == found_key(
            matches_of(strings_view(all_keys@), key_to_find@),
        ),
        strings_view(r.notices@) == lookup_notices(
            matches_of(strings_view(all_keys@), key_to_find@),
            key_to_find@,
        ),
{
    let key_match = KeyMatch::new(all_keys, key_to_find);
    let keys = key_match.get_matches();
    lookup_from_matches(keys, key_to_find)
}

// ---------------------------------------------------------------------------
// Listing bundles
// ---------------------------------------------------------------------------

/// Whether `field`, in lower case, names a column of the bundle list.
pub open spec fn is_valid_field(field: Seq<char>) -> bool {
    field == "key"@ || field == "name"@ || field == "size"@ || field == "claimed"@
}

/// Whether every field names a column, letter case set aside.
pub open spec fn fields_are_valid(fields: Seq<Seq<char>>) -> bool {
    forall|i: int| 0 <= i < fields.len() ==> is_valid_field(lowercase_of(#[trigger] fields[i]))
}

/// Whether `field` is one of the four column names.
pub fn is_column_name(field: &str) -> (r: bool)
    ensures
        r == is_valid_field(field@),
{
    str_eq(field, "key") || str_eq(field, "name") || str_eq(field, "size") || str_eq(
        field,
        "claimed",
    )
}

/// Whether every field names a column of the bundle list, letter case set
/// aside.
pub fn validate_fields(fields: &Vec<String>) -> (r: bool)
    ensures
        r == fields_are_valid(strings_view(fields@)),
{
    let mut i: usize = 0;
    while i < fields.len()
        invariant
            i <= fields.len(),
            forall|k: int|
                0 <= k < i ==> is_valid_field(lowercase_of(#[trigger] strings_view(fields@)[k])),
        decreases fields.len() - i,
    {
        let lower = to_lowercase(fields[i].as_str());
        if !is_column_name(lower.as_str()) {
            assert(!is_valid_field(lowercase_of(strings_view(fields@)[i as int])));
            return false;
        }
        i += 1;
    }
    true
}

/// Whether the list is asked for keys only, of all bundles: then the keys
/// alone are fetched and shown.
pub fn wants_keys_only(fields: &Vec<String>, claimed_filter: &str) -> (r: bool)
    ensures
        r == (fields@.len() == 1 && fields@[0]@ == "key"@ && claimed_filter@ == "all"@),
{
    fields.len() == 1 && str_eq(fields[0].as_str(), "key") && str_eq(claimed_filter, "all")
}

/// Whether a bundle of this claim status stays in a list filtered by
/// `claimed_filter`: every bundle for `all`, the claimed ones for `yes`,
/// else the unclaimed ones. A bundle without keys is neither.
pub open spec fn keeps_status(status: ClaimStatus, claimed_filter: Seq<char>) -> bool {
    claimed_filter == "all"@ || if claimed_filter == "yes"@ {
        status == ClaimStatus::Yes
    } else {
        status == ClaimStatus::No
    }
}

/// The claim status of a bundle.
pub open spec fn status_of(bundle: Bundle) -> ClaimStatus {
    claim_status_of(redeemed_flags(bundle.key_entries()))
}

/// The bundles that stay in a list filtered by `claimed_filter`, in order.
/// Any filter but `all` reads the keys of every bundle.
pub fn retain_by_claim(bundles: Vec<Bundle>, claimed_filter: &str) -> (r: Vec<Bundle>)
    requires
        claimed_filter@ != "all"@ ==> forall|i: int|
            0 <= i < bundles@.len() ==> (#[trigger] bundles@[i]).keys_readable(),
    ensures
        r@ == bundles@.filter(|b: Bundle| keeps_status(status_of(b), claimed_filter@)),
{
    let ghost keep = |b: Bundle| keeps_status(status_of(b), claimed_filter@);
    let all_wanted = str_eq(claimed_filter, "all");
    let claimed = str_eq(claimed_filter, "yes");
    let mut rest = bundles;
    let ghost all = rest@;
    let ghost mut done: int = 0;
    let mut out: Vec<Bundle> = Vec::new();
    assert(all.take(0) == Seq::<Bundle>::empty());
    while rest.len() > 0
        invariant
            0 <= done <= all.len(),
            rest@ == all.skip(done),
            keep == |b: Bundle| keeps_status(status_of(b), claimed_filter@),
            all_wanted == (claimed_filter@ == "all"@),
            claimed == (claimed_filter@ == "yes"@),
            !all_wanted ==> forall|i: int| 0 <= i < all.len() ==> (#[trigger] all[i]).keys_readable(),
            out@ == all.take(done).filter(keep),
        decreases rest.len(),
    {
        let bundle = rest.remove(0);
        assert(bundle == all[done]);
        assert(all.take(done + 1) == all.take(done).push(bundle));
        assert(all.skip(done).remove(0) == all.skip(done + 1));
        proof {
            all.take(done).lemma_filter_push(bundle, keep);
        }
        let stays = if all_wanted {
            true
        } else {
            let status = bundle.claim_status();
            (status == ClaimStatus::Yes && claimed) || (status == ClaimStatus::No && !claimed)
        };
        if stays {
            out.push(bundle);
        }
        proof {
            done = done + 1;
        }
    }
    assert(all.take(all.len() as int) == all);
    out
}

/// Which columns a bulk listing shows.
#[derive(Debug, Clone, Copy, PartialEq, Eq, Structural)]
pub struct Columns {
    pub key: bool,
    pub name: bool,
    pub size: bool,
    pub claimed: bool,
}

/// The columns that the fields name, each by its exact name.
pub open spec fn columns_of(fields: Seq<Seq<char>>) -> Columns {
    Columns {
        key: fields.contains("key"@),
        name: fields.contains("name"@),
        size: fields.contains("size"@),
        claimed: fields.contains("claimed"@),
    }
}

/// The cells of a bundle's line, in the order key, name, size, claimed,
/// each only where its column is shown. `size` is the bundle's size as it is
/// written out.
pub open spec fn bulk_cells(bundle: Bundle, size: Seq<char>, columns: Columns) -> Seq<Seq<char>> {
    (if columns.key {
        seq![bundle.gamekey@]
    } else {
        Seq::<Seq<char>>::empty()
    }) + (if columns.name {
        seq![bundle.details.human_name@]
    } else {
        Seq::<Seq<char>>::empty()
    }) + (if columns.size {
        seq![size]
    } else {
        Seq::<Seq<char>>::empty()
    }) + (if columns.claimed {
        seq![status_of(bundle).text()]
    } else {
        Seq::<Seq<char>>::empty()
    })
}

/// The line of one bundle in a bulk listing: its cells with commas between.
pub fn bulk_line(bundle: &Bundle, size: &str, columns: Columns) -> (r: String)
    requires
        columns.claimed ==> bundle.keys_readable(),
    ensures
        r@ == joined(bulk_cells(*bundle, size@, columns), ","@),
{
    let mut cells: Vec<String> = Vec::new();
    assert(strings_view(cells@) == Seq::<Seq<char>>::empty());
    if columns.key {
        let ghost before = strings_view(cells@);
        cells.push(bundle.gamekey.clone());
        assert(strings_view(cells@) == before + seq![bundle.gamekey@]);
    }
    if columns.name {
        let ghost before = strings_view(cells@);
        cells.push(bundle.details.human_name.clone());
        assert(strings_view(cells@) == before + seq![bundle.details.human_name@]);
    }
    if columns.size {
        let ghost before = strings_view(cells@);
        cells.push(size.to_owned());
        assert(strings_view(cells@) == before + seq![size@]);
    }
    if columns.claimed {
        let ghost before = strings_view(cells@);
        let status = bundle.claim_status().to_string();
        cells.push(status);
        assert(strings_view(cells@) == before + seq![status_of(*bundle).text()]);
    }
    assert(strings_view(cells@) == bulk_cells(*bundle, size@, columns));
    join(&cells, ",")
}

/// The lines of a bulk listing, one for each bundle.
pub open spec fn bulk_lines(bundles: Seq<Bundle>, columns: Columns) -> Seq<Seq<char>> {
    bundles.map_values(
        |b: Bundle| joined(bulk_cells(b, humanized_size(b.size() as u64), columns), ","@),
    )
}

/// The error for a listing asked with a field that names no column.
pub open spec fn invalid_fields_message(fields: Seq<Seq<char>>) -> Seq<char> {
    "invalid field in fields: "@ + joined(fields, ","@)
}

/// The lines of a listing that shows the named fields only, one line for
/// each bundle. A field that names no column refuses the whole listing.
pub fn bulk_format(fields: &Vec<String>, bundles: &Vec<Bundle>) -> (r: Result<Vec<String>, String>)
    requires
        forall|i: int| 0 <= i < bundles@.len() ==> (#[trigger] bundles@[i]).size() <= u64::MAX,
        fields_are_valid(strings_view(fields@)) && columns_of(strings_view(fields@)).claimed
            ==> forall|i: int| 0 <= i < bundles@.len() ==> (#[trigger] bundles@[i]).keys_readable(),
    ensures
        match r {
            Ok(lines) => fields_are_valid(strings_view(fields@)) && strings_view(lines@)
                == bulk_lines(bundles@, columns_of(strings_view(fields@))),
            Err(message) => !fields_are_valid(strings_view(fields@)) && message@
                == invalid_fields_message(strings_view(fields@)),
        },
{
    if !validate_fields(fields) {
        let listed = join(fields, ",");
        return Err(concat2("invalid field in fields: ", listed.as_str()));
    }
    let columns = Columns {
        key: list_contains(fields, "key"),
        name: list_contains(fields, "name"),
        size: list_contains(fields, "size"),
        claimed: list_contains(fields, "claimed"),
    };
    let mut lines: Vec<String> = Vec::new();
    let mut i: usize = 0;
    while i < bundles.len()
        invariant
            i <= bundles.len(),
            columns == columns_of(strings_view(fields@)),
            forall|k: int| 0 <= k < bundles@.len() ==> (#[trigger] bundles@[k]).size() <= u64::MAX,
            columns.claimed ==> forall|k: int|
                0 <= k < bundles@.len() ==> (#[trigger] bundles@[k]).keys_readable(),
            strings_view(lines@) == bulk_lines(bundles@, columns).take(i as int),
        decreases bundles.len() - i,
    {
        let ghost before = strings_view(lines@);
        let size = humanize_bytes(bundles[i].total_size());
        let line = bulk_line(&bundles[i], size.as_str(), columns);
        lines.push(line);
        assert(strings_view(lines@) == before.push(line@));
        assert(bulk_lines(bundles@, columns).take(i + 1) == before.push(line@));
        i += 1;
    }
    assert(bulk_lines(bundles@, columns).take(bundles.len() as int) == bulk_lines(
        bundles@,
        columns,
    ));
    Ok(lines)
}

/// The line that tells how many bundles a listing found.
pub fn found_notice(count: usize) -> (r: String)
    ensures
        r@ == decimal_text(count as nat) + " bundle(s) found.\n"@,
{
    let n = format_u64(count as u64);
    concat2(n.as_str(), " bundle(s) found.\n")
}

// ---------------------------------------------------------------------------
// Downloading several bundles
// ---------------------------------------------------------------------------

/// One line of a list of bundles to download.
#[derive(Debug)]
pub struct BundleListEntry {
    /// The key of the bundle: what stands before the first comma.
    pub key: String,
    /// The name of the bundle: what stands between the first comma and the
    /// second. `None` for a line without a comma.
    pub name: Option<String>,
}

impl BundleListEntry {
    /// The name under which the bundle is reported: its own, or its key
    /// where the line names none.
    pub open spec fn reported_name(&self) -> Seq<char> {
        match self.name {
            Some(name) => name@,
            None => self.key@,
        }
    }

    /// The name under which the bundle is reported.
    pub fn display_name(&self) -> (r: &str)
        ensures
            r@ == self.reported_name(),
    {
        match &self.name {
            Some(name) => name.as_str(),
            None => self.key.as_str(),
        }
    }
}

/// The key on a line of a bundle list.
pub open spec fn entry_key(line: Seq<char>) -> Seq<char> {
    split_on(line, ',')[0]
}

/// The name on a line of a bundle list, where the line has a comma.
pub open spec fn entry_name(line: Seq<char>) -> Option<Seq<char>> {
    if split_on(line, ',').len() >= 2 {
        Some(split_on(line, ',')[1])
    } else {
        None
    }
}

/// Reads one line of a bundle list.
pub fn parse_bundle_line(line: &str) -> (r: BundleListEntry)
    ensures
        r.key@ == entry_key(line@),
        text_view(r.name) == entry_name(line@),
{
    let parts = split(&chars_of(line), ',');
    assert(vecs_view(parts@)[0] == parts@[0]@);
    let key = string_of(&parts[0]);
    let name = if parts.len() >= 2 {
        assert(vecs_view(parts@)[1] == parts@[1]@);
        Some(string_of(&parts[1]))
    } else {
        None
    };
    BundleListEntry { key, name }
}

/// Reads a list of bundles to download, one bundle to a line.
pub fn parse_bundle_list(buffer: &str) -> (r: Vec<BundleListEntry>)
    ensures
        r@.len() == lines_of(buffer@).len(),
        forall|i: int|
            0 <= i < r@.len() ==> (#[trigger] r@[i]).key@ == entry_key(lines_of(buffer@)[i])
                && text_view(r@[i].name) == entry_name(lines_of(buffer@)[i]),
{
    let lines = list_lines(buffer);
    let mut out: Vec<BundleListEntry> = Vec::new();
    let mut i: usize = 0;
    while i < lines.len()
        invariant
            i <= lines.len(),
            out@.len() == i,
            strings_view(lines@) == lines_of(buffer@),
            forall|k: int|
                0 <= k < i ==> (#[trigger] out@[k]).key@ == entry_key(lines_of(buffer@)[k])
                    && text_view(out@[k].name) == entry_name(lines_of(buffer@)[k]),
        decreases lines.len() - i,
    {
        assert(strings_view(lines@)[i as int] == lines@[i as int]@);
        out.push(parse_bundle_line(lines[i].as_str()));
        i += 1;
    }
    out
}

/// The bundles of a batch that failed, each with its error in words, in the
/// order in which they were tried.
#[derive(Debug)]
pub struct BatchReport {
    pub failures: Vec<(String, String)>,
}

/// The two lines that report one failed bundle.
pub open spec fn failure_lines(failure: (String, String)) -> Seq<Seq<char>> {
    seq!["Error handeling: "@ + failure.0@, "Error: "@ + failure.1@]
}

/// The lines that report the failures of a batch, in order.
pub open spec fn report_lines(failures: Seq<(String, String)>) -> Seq<Seq<char>>
    decreases failures.len(),
{
    if failures.len() == 0 {
        Seq::<Seq<char>>::empty()
    } else {
        report_lines(failures.drop_last()) + failure_lines(failures.last())
    }
}

impl BatchReport {
    /// The report of a batch of which nothing has been tried.
    pub fn new() -> (r: Self)
        ensures
            r.failures@.len() == 0,
    {
        BatchReport { failures: Vec::new() }
    }

    /// Takes note of the outcome of one bundle: a failure is kept, with the
    /// bundle's name; a success leaves the report as it is. The batch goes
    /// on either way.
    pub fn record(&mut self, bundle_name: &str, outcome: Result<(), String>)
        ensures
            match outcome {
                Ok(_) => final(self).failures@ == old(self).failures@,
                Err(error) => {
                    &&& final(self).failures@.len() == old(self).failures@.len() + 1
                    &&& final(self).failures@.drop_last() == old(self).failures@
                    &&& final(self).failures@.last().0@ == bundle_name@
                    &&& final(self).failures@.last().1@ == error@
                },
            },
    {
        match outcome {
            Ok(_) => {},
            Err(error) => {
                self.failures.push((bundle_name.to_owned(), error));
            },
        }
    }

    /// The lines to show once every bundle has been tried: two for each
    /// failure.
    pub fn lines(&self) -> (r: Vec<String>)
        ensures
            strings_view(r@) == report_lines(self.failures@),
    {
        let mut out: Vec<String> = Vec::new();
        let mut i: usize = 0;
        assert(self.failures@.take(0) == Seq::<(String, String)>::empty());
        assert(strings_view(out@) == Seq::<Seq<char>>::empty());
        while i < self.failures.len()
            invariant
                i <= self.failures.len(),
                strings_view(out@) == report_lines(self.failures@.take(i as int)),
            decreases self.failures.len() - i,
        {
            let ghost before = strings_view(out@);
            assert(self.failures@.take(i + 1).drop_last() == self.failures@.take(i as int));
            assert(self.failures@.take(i + 1).last() == self.failures@[i as int]);
            let first = concat2("Error handeling: ", self.failures[i].0.as_str());
            let second = concat2("Error: ", self.failures[i].1.as_str());
            out.push(first);
            out.push(second);
            assert(strings_view(out@) == before + failure_lines(self.failures@[i as int]));
            i += 1;
        }
        assert(self.failures@.take(self.failures.len() as int) == self.failures@);
        out
    }
}

} // verus!

//! File names, format lists, item-number ranges and byte sizes.

use crate::decimal::{lemma_parse_unsigned, parse_range, parse_unsigned, NumberError};
use crate::text::{
    chars_of, concat3, find_char, index_of, is_white_space, join, joined, lemma_trimmed,
    lowercase_of, str_eq, strings_view, strs_view, to_lowercase, trim, trimmed,
};
use vstd::prelude::*;

verus! {

// ---------------------------------------------------------------------------
// File names
// ---------------------------------------------------------------------------

/// The characters that may not stand in a file name.
pub open spec fn is_invalid_filename_char(c: char) -> bool {
    c == '/' || c == '\\' || c == '?' || c == '%' || c == '*' || c == ':' || c == '|' || c == '"'
        || c == '<' || c == '>' || c == ';' || c == '=' || c == '\n'
}

/// `s` with a space in the place of every invalid character.
pub open spec fn with_spaces_for_invalid(s: Seq<char>) -> Seq<char> {
    s.map_values(
        |c: char|
            if is_invalid_filename_char(c) {
                ' '
            } else {
                c
            },
    )
}

/// The file-system-safe form of a name: invalid characters become spaces,
/// then white space at both ends is cut off.
pub open spec fn sanitized(s: Seq<char>) -> Seq<char> {
    trimmed(with_spaces_for_invalid(s))
}

/// A name made safe holds none of the invalid characters, neither begins
/// nor ends with white space, and making it safe again changes nothing.
pub proof fn lemma_sanitized(s: Seq<char>)
    ensures
        forall|k: int|
            0 <= k < sanitized(s).len() ==> !is_invalid_filename_char(#[trigger] sanitized(s)[k]),
        sanitized(s).len() > 0 ==> !is_white_space(sanitized(s)[0]) && !is_white_space(
            sanitized(s).last(),
        ),
        sanitized(s).len() <= s.len(),
        sanitized(sanitized(s)) == sanitized(s),
{
    let replaced = with_spaces_for_invalid(s);
    lemma_trimmed(replaced);
    let (i, j) = choose|i: int, j: int|
        0 <= i <= j <= replaced.len() && trimmed(replaced) == replaced.subrange(i, j);
    let safe = sanitized(s);
    assert forall|k: int| 0 <= k < safe.len() implies !is_invalid_filename_char(
        #[trigger] safe[k],
    ) by {
        assert(safe[k] == replaced[i + k]);
    }
    assert(with_spaces_for_invalid(safe) == safe);
}

fn is_invalid_char(c: char) -> (b: bool)
    ensures
        b == is_invalid_filename_char(c),
{
    c == '/' || c == '\\' || c == '?' || c == '%' || c == '*' || c == ':' || c == '|' || c == '"'
        || c == '<' || c == '>' || c == ';' || c == '=' || c == '\n'
}

/// Makes a name safe to use as a file or directory name: the result holds
/// none of the invalid characters and neither begins nor ends with white
/// space.
pub fn replace_invalid_chars_in_filename(input: &str) -> (r: String)
    ensures
        r@ == sanitized(input@),
        forall|k: int| 0 <= k < r@.len() ==> !is_invalid_filename_char(#[trigger] r@[k]),
        r@.len() > 0 ==> !is_white_space(r@[0]) && !is_white_space(r@.last()),
{
    proof {
        lemma_sanitized(input@);
    }
    let chars = chars_of(input);
    let mut replaced: Vec<char> = Vec::new();
    let mut i: usize = 0;
    while i < chars.len()
        invariant
            i <= chars.len(),
            replaced@ == with_spaces_for_invalid(chars@.take(i as int)),
        decreases chars.len() - i,
    {
        let c = chars[i];
        if is_invalid_char(c) {
            replaced.push(' ');
        } else {
            replaced.push(c);
        }
        assert(chars@.take(i + 1) == chars@.take(i as int).push(c));
        assert(replaced@ == with_spaces_for_invalid(chars@.take(i + 1)));
        i += 1;
    }
    assert(chars@.take(chars.len() as int) == chars@);
    trim(&replaced)
}

/// The path segments of a URL: what `Url::path_segments` lists for the URL
/// that `Url::parse` makes of the text, and `None` where the text is no
/// absolute URL or the URL has no path made of segments.
pub uninterp spec fn url_path_segments(url: Seq<char>) -> Option<Seq<Seq<char>>>;

/// The view of an optional list of segments.
pub open spec fn segments_view(segments: Option<Vec<String>>) -> Option<Seq<Seq<char>>> {
    match segments {
        Some(v) => Some(strings_view(v@)),
        None => None,
    }
}

/// The view of an optional string.
pub open spec fn text_view(s: Option<String>) -> Option<Seq<char>> {
    match s {
        Some(t) => Some(t@),
        None => None,
    }
}

/// Parses `url` with `reqwest::Url::parse` and lists its
/// `Url::path_segments`. The segments are named, not described.
#[verifier::external_body]
fn path_segments_of_url(url: &str) -> (r: Option<Vec<String>>)
    ensures
        segments_view(r) == url_path_segments(url@),
{
    match reqwest::Url::parse(url) {
        Ok(parsed) => parsed.path_segments().map(|it| it.map(|s| s.to_string()).collect()),
        Err(_) => None,
    }
}

/// The file name among the path segments of a URL: the last segment, unless
/// it is empty.
pub open spec fn file_name_in(segments: Option<Seq<Seq<char>>>) -> Option<Seq<char>> {
    match segments {
        Some(s) => if s.len() > 0 && s.last().len() > 0 {
            Some(s.last())
        } else {
            None
        },
        None => None,
    }
}

/// Picks the file name out of the path segments of a URL.
pub fn file_name_from_segments(segments: Option<Vec<String>>) -> (r: Option<String>)
    ensures
        text_view(r) == file_name_in(segments_view(segments)),
{
    match segments {
        None => None,
        Some(mut v) => {
            let ghost before = v@;
            match v.pop() {
                None => None,
                Some(last) => {
                    assert(strings_view(before).last() == last@);
                    if last.as_str().is_empty() {
                        None
                    } else {
                        Some(last)
                    }
                },
            }
        },
    }
}

/// The file name that a download URL ends in, taken verbatim.
pub fn extract_filename_from_url(url: &str) -> (r: Option<String>)
    ensures
        text_view(r) == file_name_in(url_path_segments(url@)),
{
    file_name_from_segments(path_segments_of_url(url))
}

// ---------------------------------------------------------------------------
// Format lists
// ---------------------------------------------------------------------------

/// Every text of `v` in lower case.
pub open spec fn lowered(v: Seq<Seq<char>>) -> Seq<Seq<char>> {
    v.map_values(|s: Seq<char>| lowercase_of(s))
}

/// Whether some text stands in both lists.
pub open spec fn share_an_element(a: Seq<Seq<char>>, b: Seq<Seq<char>>) -> bool {
    exists|i: int, j: int| 0 <= i < a.len() && 0 <= j < b.len() && a[i] == b[j]
}

/// Whether `needle` stands in `list`.
pub fn list_contains(list: &Vec<String>, needle: &str) -> (r: bool)
    ensures
        r == strings_view(list@).contains(needle@),
{
    let mut i: usize = 0;
    while i < list.len()
        invariant
            i <= list.len(),
            forall|k: int| 0 <= k < i ==> strings_view(list@)[k] != needle@,
        decreases list.len() - i,
    {
        if str_eq(list[i].as_str(), needle) {
            assert(strings_view(list@)[i as int] == needle@);
            return true;
        }
        i += 1;
    }
    false
}

/// Whether two lists have a text in common, compared exactly.
pub fn have_common_element(first: &Vec<String>, second: &Vec<String>) -> (r: bool)
    ensures
        r == share_an_element(strings_view(first@), strings_view(second@)),
{
    let mut i: usize = 0;
    while i < first.len()
        invariant
            i <= first.len(),
            forall|p: int, q: int|
                0 <= p < i && 0 <= q < second.len() ==> strings_view(first@)[p] != strings_view(
                    second@,
                )[q],
        decreases first.len() - i,
    {
        if list_contains(second, first[i].as_str()) {
            let ghost q = choose|q: int|
                0 <= q < strings_view(second@).len() && strings_view(second@)[q] == first@[i as int]@;
            assert(strings_view(first@)[i as int] == strings_view(second@)[q]);
            return true;
        }
        i += 1;
    }
    false
}

/// The texts of `list`, each in lower case.
pub fn lowercase_all(list: &[&str]) -> (r: Vec<String>)
    ensures
        strings_view(r@) == lowered(strs_view(list@)),
{
    let mut out: Vec<String> = Vec::new();
    let mut i: usize = 0;
    while i < list.len()
        invariant
            i <= list.len(),
            strings_view(out@) == lowered(strs_view(list@)).take(i as int),
        decreases list.len() - i,
    {
        let lower = to_lowercase(list[i]);
        let ghost before = strings_view(out@);
        assert(lower@ == lowered(strs_view(list@))[i as int]);
        out.push(lower);
        assert(strings_view(out@) == before.push(lower@));
        assert(lowered(strs_view(list@)).take(i + 1) == before.push(lower@));
        i += 1;
    }
    assert(lowered(strs_view(list@)).take(list.len() as int) == lowered(strs_view(list@)));
    out
}

/// Whether the two lists have a text in common once letter case is set
/// aside. An empty list has nothing in common with any list.
pub fn str_vectors_intersect(first: &[&str], second: &[&str]) -> (r: bool)
    ensures
        r == share_an_element(lowered(strs_view(first@)), lowered(strs_view(second@))),
{
    let a = lowercase_all(first);
    let b = lowercase_all(second);
    have_common_element(&a, &b)
}

// ---------------------------------------------------------------------------
// Item-number ranges
// ---------------------------------------------------------------------------

/// The numbers from `lo` to `hi`, both included, in rising order; none where
/// `lo` is above `hi`.
pub open spec fn span(lo: nat, hi: nat) -> Seq<usize> {
    Seq::new(
        if lo <= hi {
            (hi - lo + 1) as nat
        } else {
            0
        },
        |i: int| (lo + i) as usize,
    )
}

/// One side of a range: the number it spells, or `default` where it is empty.
pub open spec fn bound_or(side: Seq<char>, default: nat) -> Option<nat> {
    if side.len() == 0 {
        Some(default)
    } else {
        match parse_unsigned(side, usize::MAX as nat) {
            Ok(n) => Some(n),
            Err(_) => None,
        }
    }
}

/// The first and the last number that an item-number token spells.
///
/// A token without a dash is one number. With a dash, what stands before the
/// first dash is the first number (1 where nothing stands there) and what
/// follows it is the last (`max_value` where nothing follows). `None` where a
/// side is not a number.
pub open spec fn spelled_bounds(token: Seq<char>, max_value: nat) -> Option<(nat, nat)> {
    let dash = index_of(token, '-');
    if dash == token.len() {
        match parse_unsigned(token, usize::MAX as nat) {
            Ok(n) => Some((n, n)),
            Err(_) => None,
        }
    } else {
        match (bound_or(token.take(dash), 1), bound_or(token.skip(dash + 1), max_value)) {
            (Some(lo), Some(hi)) => Some((lo, hi)),
            _ => None,
        }
    }
}

/// The first and the last number that an item-number token stands for.
///
/// Items are counted from 1: a token whose first number is 0 names no item
/// and stands for nothing, as does a token that spells no numbers.
pub open spec fn token_bounds(token: Seq<char>, max_value: nat) -> Option<(nat, nat)> {
    match spelled_bounds(token, max_value) {
        Some((lo, hi)) => if lo >= 1 {
            Some((lo, hi))
        } else {
            None
        },
        None => None,
    }
}

/// The numbers that an item-number token stands for, in rising order.
pub open spec fn token_span(token: Seq<char>, max_value: nat) -> Option<Seq<usize>> {
    match token_bounds(token, max_value) {
        Some((lo, hi)) => Some(span(lo, hi)),
        None => None,
    }
}

fn parse_bound(chars: &Vec<char>, from: usize, to: usize, default: usize) -> (r: Option<usize>)
    requires
        from <= to <= chars.len(),
    ensures
        match r {
            Some(n) => bound_or(chars@.subrange(from as int, to as int), default as nat) == Some(
                n as nat,
            ),
            None => bound_or(chars@.subrange(from as int, to as int), default as nat) is None,
        },
{
    if from == to {
        Some(default)
    } else {
        match parse_usize(chars, from, to) {
            Ok(n) => Some(n),
            Err(_) => None,
        }
    }
}

/// Reads `chars[from..to]` as a `usize`.
pub fn parse_usize(chars: &Vec<char>, from: usize, to: usize) -> (r: Result<usize, NumberError>)
    requires
        from <= to <= chars.len(),
    ensures
        match r {
            Ok(n) => parse_unsigned(chars@.subrange(from as int, to as int), usize::MAX as nat)
                == Ok::<nat, NumberError>(n as nat),
            Err(e) => parse_unsigned(chars@.subrange(from as int, to as int), usize::MAX as nat)
                == Err::<nat, NumberError>(e),
        },
{
    assert(usize::MAX as u64 == usize::MAX);
    match parse_range(chars, from, to, usize::MAX as u64) {
        Ok(n) => {
            proof {
                lemma_parse_unsigned(chars@.subrange(from as int, to as int), usize::MAX as nat);
            }
            Ok(n as usize)
        },
        Err(e) => Err(e),
    }
}

fn numbers_between(lo: usize, hi: usize) -> (r: Vec<usize>)
    ensures
        r@ == span(lo as nat, hi as nat),
{
    let mut out: Vec<usize> = Vec::new();
    let mut n: usize = lo;
    while n < hi
        invariant
            lo <= n,
            lo <= hi ==> n <= hi,
            lo > hi ==> n == lo,
            out@ == Seq::new((n - lo) as nat, |i: int| (lo + i) as usize),
        decreases hi - n,
    {
        let ghost before = out@;
        out.push(n);
        assert(out@ == before.push(n));
        n += 1;
        assert(out@ == Seq::new((n - lo) as nat, |i: int| (lo + i) as usize));
    }
    if lo <= hi {
        let ghost before = out@;
        out.push(hi);
        assert(out@ == before.push(hi));
    }
    assert(out@.len() == span(lo as nat, hi as nat).len());
    assert forall|i: int| 0 <= i < out@.len() implies out@[i] == span(lo as nat, hi as nat)[i] by {
        if i < n - lo {
            assert(out@[i] == (lo + i) as usize);
        }
    }
    assert(out@ == span(lo as nat, hi as nat));
    out
}

/// Reads the two ends that an item-number token spells.
fn parse_ends(value: &str, max_value: usize) -> (r: Option<(usize, usize)>)
    ensures
        match r {
            Some((lo, hi)) => spelled_bounds(value@, max_value as nat) == Some(
                (lo as nat, hi as nat),
            ),
            None => spelled_bounds(value@, max_value as nat) is None,
        },
{
    let chars = chars_of(value);
    match find_char(&chars, '-') {
        None => {
            assert(chars@.subrange(0, chars.len() as int) == chars@);
            match parse_usize(&chars, 0, chars.len()) {
                Ok(n) => Some((n, n)),
                Err(_) => None,
            }
        },
        Some(dash) => {
            assert(chars@.subrange(0, dash as int) == chars@.take(dash as int));
            assert(chars@.subrange(dash + 1, chars.len() as int) == chars@.skip(dash + 1));
            let left = parse_bound(&chars, 0, dash, 1);
            let right = parse_bound(&chars, dash + 1, chars.len(), max_value);
            match (left, right) {
                (Some(lo), Some(hi)) => Some((lo, hi)),
                _ => None,
            }
        },
    }
}

/// Reads one item-number token: `42`, `5-10`, `-5` (from 1) or `45-` (up to
/// `max_value`). Items are counted from 1, so no number of the result is 0:
/// a token whose first number is 0 is no token.
pub fn parse_usize_range(value: &str, max_value: usize) -> (r: Option<Vec<usize>>)
    ensures
        match r {
            Some(v) => token_span(value@, max_value as nat) == Some(v@),
            None => token_span(value@, max_value as nat) is None,
        },
        r matches Some(v) ==> forall|i: int| 0 <= i < v@.len() ==> v@[i] >= 1,
{
    match parse_ends(value, max_value) {
        Some((lo, hi)) => {
            if lo == 0 {
                None
            } else {
                Some(numbers_between(lo, hi))
            }
        },
        None => None,
    }
}

/// Whether every number of `s` is below the one that follows it.
pub open spec fn strictly_increasing(s: Seq<usize>) -> bool {
    forall|i: int, j: int| 0 <= i < j < s.len() ==> s[i] < s[j]
}

/// Whether `x` lies in the range of one of the tokens.
pub open spec fn in_some_range(tokens: Seq<Seq<char>>, max_value: nat, x: usize) -> bool {
    exists|i: int|
        0 <= i < tokens.len() && (#[trigger] token_bounds(tokens[i], max_value) matches Some(
            (lo, hi),
        ) && lo <= x <= hi)
}

/// The tokens that stand for no range, in the order given.
pub open spec fn invalid_tokens(tokens: Seq<Seq<char>>, max_value: nat) -> Seq<Seq<char>> {
    tokens.filter(|t: Seq<char>| token_bounds(t, max_value) is None)
}

/// A token between single quotes.
pub open spec fn quoted(token: Seq<char>) -> Seq<char> {
    "'"@ + token + "'"@
}

/// The message that names the invalid tokens.
pub open spec fn invalid_tokens_message(tokens: Seq<Seq<char>>, max_value: nat) -> Seq<char> {
    joined(invalid_tokens(tokens, max_value).map_values(|t: Seq<char>| quoted(t)), ", "@)
}

/// The numbers of `a` and `b` together, in rising order, each once.
fn merge(a: &Vec<usize>, b: &Vec<usize>) -> (r: Vec<usize>)
    requires
        strictly_increasing(a@),
        strictly_increasing(b@),
    ensures
        strictly_increasing(r@),
        forall|x: usize| r@.contains(x) <==> a@.contains(x) || b@.contains(x),
{
    let mut out: Vec<usize> = Vec::new();
    let mut i: usize = 0;
    let mut j: usize = 0;
    while i < a.len() || j < b.len()
        invariant
            i <= a.len(),
            j <= b.len(),
            strictly_increasing(a@),
            strictly_increasing(b@),
            strictly_increasing(out@),
            forall|k: int| 0 <= k < out.len() && i < a.len() ==> out@[k] < a@[i as int],
            forall|k: int| 0 <= k < out.len() && j < b.len() ==> out@[k] < b@[j as int],
            forall|k: int|
                0 <= k < out.len() ==> a@.contains(#[trigger] out@[k]) || b@.contains(out@[k]),
            forall|p: int| 0 <= p < i ==> out@.contains(#[trigger] a@[p]),
            forall|q: int| 0 <= q < j ==> out@.contains(#[trigger] b@[q]),
        decreases (a.len() - i) + (b.len() - j),
    {
        let ghost before = out@;
        let take_a: bool = j >= b.len() || (i < a.len() && a[i] <= b[j]);
        let x: usize = if take_a {
            a[i]
        } else {
            b[j]
        };
        out.push(x);
        assert(out@[before.len() as int] == x);
        assert forall|k: int| 0 <= k < before.len() implies out@[k] == before[k] by {}
        assert forall|p: int| 0 <= p < i implies out@.contains(#[trigger] a@[p]) by {
            let w = choose|w: int| 0 <= w < before.len() && before[w] == a@[p];
            assert(out@[w] == a@[p]);
        }
        assert forall|q: int| 0 <= q < j implies out@.contains(#[trigger] b@[q]) by {
            let w = choose|w: int| 0 <= w < before.len() && before[w] == b@[q];
            assert(out@[w] == b@[q]);
        }
        if take_a {
            let both: bool = j < b.len() && b[j] == x;
            i += 1;
            if both {
                j += 1;
            }
        } else {
            j += 1;
        }
    }
    assert forall|x: usize| r_contains(out@, a@, b@, x) by {
        if a@.contains(x) {
            let p = choose|p: int| 0 <= p < a@.len() && a@[p] == x;
            assert(out@.contains(a@[p]));
        }
        if b@.contains(x) {
            let q = choose|q: int| 0 <= q < b@.len() && b@[q] == x;
            assert(out@.contains(b@[q]));
        }
        if out@.contains(x) {
            let k = choose|k: int| 0 <= k < out@.len() && out@[k] == x;
            assert(a@.contains(out@[k]) || b@.contains(out@[k]));
        }
    }
    out
}

/// Whether `x` is in `out` exactly when it is in `a` or in `b`.
spec fn r_contains(out: Seq<usize>, a: Seq<usize>, b: Seq<usize>, x: usize) -> bool {
    out.contains(x) <==> a.contains(x) || b.contains(x)
}

/// Resolves a list of item-number tokens into the numbers they stand for:
/// rising, each once. Where a token is no range, nothing is resolved and the
/// error names every such token, quoted, in the order given.
pub fn union_usize_ranges(values: &[&str], max_value: usize) -> (r: Result<Vec<usize>, String>)
    ensures
        match r {
            Ok(v) => {
                &&& invalid_tokens(strs_view(values@), max_value as nat).len() == 0
                &&& strictly_increasing(v@)
                &&& forall|x: usize|
                    v@.contains(x) <==> in_some_range(strs_view(values@), max_value as nat, x)
                &&& forall|i: int| 0 <= i < v@.len() ==> v@[i] >= 1
            },
            Err(msg) => {
                &&& invalid_tokens(strs_view(values@), max_value as nat).len() > 0
                &&& msg@ == invalid_tokens_message(strs_view(values@), max_value as nat)
            },
        },
{
    let ghost tokens = strs_view(values@);
    let ghost max = max_value as nat;
    let ghost is_invalid = |t: Seq<char>| token_bounds(t, max) is None;
    let mut invalid: Vec<String> = Vec::new();
    let mut all: Vec<usize> = Vec::new();
    let mut i: usize = 0;
    assert(tokens.take(0) == Seq::<Seq<char>>::empty());
    while i < values.len()
        invariant
            i <= values.len(),
            tokens == strs_view(values@),
            max == max_value as nat,
            is_invalid == |t: Seq<char>| token_bounds(t, max) is None,
            strictly_increasing(all@),
            strings_view(invalid@) == tokens.take(i as int).filter(is_invalid).map_values(
                |t: Seq<char>| quoted(t),
            ),
            forall|x: usize| all@.contains(x) <==> in_some_range(tokens.take(i as int), max, x),
        decreases values.len() - i,
    {
        let ghost seen = tokens.take(i as int);
        let ghost token = tokens[i as int];
        assert(tokens.take(i + 1) == seen.push(token));
        proof {
            seen.lemma_filter_push(token, is_invalid);
        }
        let ghost before_all = all@;
        let ghost before_invalid = strings_view(invalid@);
        match parse_usize_range(values[i], max_value) {
            Some(numbers) => {
                assert(token_bounds(token, max) is Some);
                let ghost bounds = token_bounds(token, max)->0;
                let ghost lo = bounds.0;
                let ghost hi = bounds.1;
                assert(numbers@ == span(lo, hi));
                proof {
                    lemma_token_bounds_fit(token, max);
                }
                assert(strictly_increasing(numbers@));
                all = merge(&all, &numbers);
                assert forall|x: usize| all@.contains(x) <==> in_some_range(
                    seen.push(token),
                    max,
                    x,
                ) by {
                    lemma_span_contains(lo, hi, x);
                    lemma_in_some_range_push(seen, token, max, x);
                }
            },
            None => {
                let q = concat3("'", values[i], "'");
                invalid.push(q);
                assert(strings_view(invalid@) == before_invalid.push(quoted(token)));
                assert(seen.push(token).filter(is_invalid).map_values(|t: Seq<char>| quoted(t))
                    == before_invalid.push(quoted(token)));
                assert forall|x: usize| all@.contains(x) <==> in_some_range(
                    seen.push(token),
                    max,
                    x,
                ) by {
                    lemma_in_some_range_push(seen, token, max, x);
                }
            },
        }
        i += 1;
    }
    assert(tokens.take(values.len() as int) == tokens);
    if invalid.len() > 0 {
        Err(join(&invalid, ", "))
    } else {
        assert forall|i: int| 0 <= i < all@.len() implies all@[i] >= 1 by {
            assert(all@.contains(all@[i]));
            lemma_ranges_begin_at_one(tokens, max, all@[i]);
        }
        Ok(all)
    }
}

/// Every resolved number is at least 1: items are counted from 1, and no
/// token stands for a range that begins below 1.
pub proof fn lemma_ranges_begin_at_one(tokens: Seq<Seq<char>>, max_value: nat, x: usize)
    requires
        in_some_range(tokens, max_value, x),
    ensures
        x >= 1,
{
}

/// A token that begins with its dash stands for a range from 1, and a
/// token that ends with its only dash for a range up to `max_value`.
pub proof fn lemma_open_ranges(token: Seq<char>, max_value: nat)
    ensures
        token.len() > 0 && token[0] == '-' ==> (token_bounds(token, max_value) matches Some(
            (lo, hi),
        ) ==> lo == 1),
        index_of(token, '-') == token.len() - 1 ==> (token_bounds(token, max_value) matches Some(
            (lo, hi),
        ) ==> hi == max_value),
{
    if token.len() > 0 && token[0] == '-' {
        assert(index_of(token, '-') == 0);
        assert(token.take(0).len() == 0);
    }
    if index_of(token, '-') == token.len() - 1 {
        assert(token.skip(token.len() as int).len() == 0);
    }
}

/// Both ends of a token's range fit in a `usize`.
pub proof fn lemma_token_bounds_fit(token: Seq<char>, max_value: nat)
    requires
        max_value <= usize::MAX,
    ensures
        token_bounds(token, max_value) matches Some((lo, hi)) ==> lo <= usize::MAX && hi
            <= usize::MAX,
{
    let dash = index_of(token, '-');
    lemma_parse_unsigned(token, usize::MAX as nat);
    lemma_parse_unsigned(token.take(dash), usize::MAX as nat);
    lemma_parse_unsigned(token.skip(dash + 1), usize::MAX as nat);
}

/// A number lies in a span exactly when it lies between its ends.
pub proof fn lemma_span_contains(lo: nat, hi: nat, x: usize)
    requires
        hi <= usize::MAX,
    ensures
        span(lo, hi).contains(x) <==> lo <= x <= hi,
{
    if lo <= x <= hi {
        assert(span(lo, hi)[x - lo] == x);
    }
}

proof fn lemma_in_some_range_push(seen: Seq<Seq<char>>, token: Seq<char>, max: nat, x: usize)
    ensures
        in_some_range(seen.push(token), max, x) <==> in_some_range(seen, max, x) || (token_bounds(
            token,
            max,
        ) matches Some((lo, hi)) && lo <= x <= hi),
{
    let all = seen.push(token);
    if in_some_range(all, max, x) {
        let i = choose|i: int|
            0 <= i < all.len() && (#[trigger] token_bounds(all[i], max) matches Some((lo, hi))
                && lo <= x <= hi);
        if i < seen.len() {
            assert(all[i] == seen[i]);
        }
    }
    if in_some_range(seen, max, x) {
        let i = choose|i: int|
            0 <= i < seen.len() && (#[trigger] token_bounds(seen[i], max) matches Some((lo, hi))
                && lo <= x <= hi);
        assert(all[i] == seen[i]);
    }
    if token_bounds(token, max) matches Some((lo, hi)) && lo <= x <= hi {
        assert(all[seen.len() as int] == token);
    }
}

// ---------------------------------------------------------------------------
// Byte sizes
// ---------------------------------------------------------------------------

/// A byte count as people read it: what `byte_unit` prints, with two
/// decimals, for the binary unit that suits the count.
pub uninterp spec fn humanized_size(bytes: u64) -> Seq<char>;

/// The byte count that a size such as `12MB` or `4GiB` spells, as
/// `byte_unit::Byte::parse_str` reads it with the case of `B` ignored; `None`
/// where it reads none.
pub uninterp spec fn parsed_byte_count(text: Seq<char>) -> Option<u64>;

/// Calls `Byte::from_u64`, `Byte::get_appropriate_unit` with the binary units
/// and the `Display` of the adjusted value with precision 2. The text is
/// named, not described.
#[verifier::external_body]
fn byte_unit_display(bytes: u64) -> (r: String)
    ensures
        r@ == humanized_size(bytes),
{
    let b = byte_unit::Byte::from_u64(bytes).get_appropriate_unit(byte_unit::UnitType::Binary);
    format!("{b:.2}")
}

/// Calls `Byte::parse_str` with `ignore_case` set and converts the value to
/// `u64`. The count is named, not described.
#[verifier::external_body]
fn byte_unit_parse(text: &str) -> (r: Option<u64>)
    ensures
        r == parsed_byte_count(text@),
{
    match byte_unit::Byte::parse_str(text, true) {
        Ok(b) => Some(b.into()),
        Err(_) => None,
    }
}

/// Writes a byte count with the binary unit that suits it, such as
/// `3.00 KiB`.
pub fn humanize_bytes(bytes: u64) -> (r: String)
    ensures
        r@ == humanized_size(bytes),
{
    byte_unit_display(bytes)
}

/// Reads a size such as `12MB` or `4GiB` as a number of bytes.
pub fn byte_string_to_number(byte_string: &str) -> (r: Option<u64>)
    ensures
        r == parsed_byte_count(byte_string@),
{
    byte_unit_parse(byte_string)
}

} // verus!

//! Character-level building blocks: conversions between strings and character
//! vectors, trimming, splitting, joining and decimal numbers.
//!
//! Every contract here is stated over `Seq<char>`, the view of a string.

use vstd::prelude::*;

verus! {

/// `String::push` appends one character to the end of the string.
pub assume_specification[ String::push ](s: &mut String, c: char)
    ensures
        final(s)@ == old(s)@.push(c),
;

/// The lower-case form of a text, as `str::to_lowercase` computes it from the
/// Unicode case tables.
pub uninterp spec fn lowercase_of(s: Seq<char>) -> Seq<char>;

/// Calls `str::to_lowercase`; the result is named, not described.
#[verifier::external_body]
pub(crate) fn to_lowercase(s: &str) -> (r: String)
    ensures
        r@ == lowercase_of(s@),
{
    s.to_lowercase()
}

/// The views of a sequence of owned strings.
pub open spec fn strings_view(v: Seq<String>) -> Seq<Seq<char>> {
    v.map_values(|s: String| s@)
}

/// The views of a sequence of string slices.
pub open spec fn strs_view(v: Seq<&str>) -> Seq<Seq<char>> {
    v.map_values(|s: &str| s@)
}

/// The views of a sequence of character vectors.
pub open spec fn vecs_view(v: Seq<Vec<char>>) -> Seq<Seq<char>> {
    v.map_values(|s: Vec<char>| s@)
}

/// The characters of `s`, in order.
pub fn chars_of(s: &str) -> (r: Vec<char>)
    ensures
        r@ == s@,
{
    let mut out: Vec<char> = Vec::new();
    for c in it: s.chars()
        invariant
            it.seq() == s@,
            out@ == it.seq().take(it.index()),
    {
        out.push(c);
    }
    out
}

/// The string made of the characters `v[from..to]`.
pub fn string_of_range(v: &Vec<char>, from: usize, to: usize) -> (r: String)
    requires
        from <= to <= v.len(),
    ensures
        r@ == v@.subrange(from as int, to as int),
{
    let mut out = String::new();
    let mut i: usize = from;
    while i < to
        invariant
            from <= i <= to <= v.len(),
            out@ == v@.subrange(from as int, i as int),
        decreases to - i,
    {
        out.push(v[i]);
        i += 1;
    }
    out
}

/// The string made of the characters of `v`.
pub fn string_of(v: &Vec<char>) -> (r: String)
    ensures
        r@ == v@,
{
    let r = string_of_range(v, 0, v.len());
    assert(v@.subrange(0, v.len() as int) == v@);
    r
}

/// Whether two character vectors hold the same characters.
pub fn chars_eq(a: &Vec<char>, b: &Vec<char>) -> (r: bool)
    ensures
        r == (a@ == b@),
{
    if a.len() != b.len() {
        return false;
    }
    let mut i: usize = 0;
    while i < a.len()
        invariant
            i <= a.len(),
            a.len() == b.len(),
            a@.take(i as int) == b@.take(i as int),
        decreases a.len() - i,
    {
        if a[i] != b[i] {
            return false;
        }
        assert(a@.take(i + 1) == a@.take(i as int).push(a@[i as int]));
        assert(b@.take(i + 1) == b@.take(i as int).push(b@[i as int]));
        i += 1;
    }
    assert(a@.take(a.len() as int) == a@);
    assert(b@.take(b.len() as int) == b@);
    true
}

/// Whether two string slices hold the same text.
pub fn str_eq(a: &str, b: &str) -> (r: bool)
    ensures
        r == (a@ == b@),
{
    let x = chars_of(a);
    let y = chars_of(b);
    chars_eq(&x, &y)
}

/// Whether `text` begins with `prefix`.
pub fn starts_with(text: &Vec<char>, prefix: &Vec<char>) -> (r: bool)
    ensures
        r == prefix@.is_prefix_of(text@),
{
    if prefix.len() > text.len() {
        return false;
    }
    let mut i: usize = 0;
    while i < prefix.len()
        invariant
            i <= prefix.len() <= text.len(),
            forall|j: int| 0 <= j < i ==> prefix@[j] == text@[j],
        decreases prefix.len() - i,
    {
        if prefix[i] != text[i] {
            assert(prefix@[i as int] != text@.subrange(0, prefix@.len() as int)[i as int]);
            return false;
        }
        i += 1;
    }
    assert(prefix@ =~= text@.subrange(0, prefix@.len() as int));
    true
}

// ---------------------------------------------------------------------------
// White space and trimming
// ---------------------------------------------------------------------------

/// The code points that carry the Unicode `White_Space` property.
pub open spec fn is_white_space(c: char) -> bool {
    let n = c as u32;
    ||| 0x09 <= n <= 0x0D
    ||| n == 0x20
    ||| n == 0x85
    ||| n == 0xA0
    ||| n == 0x1680
    ||| 0x2000 <= n <= 0x200A
    ||| n == 0x2028
    ||| n == 0x2029
    ||| n == 0x202F
    ||| n == 0x205F
    ||| n == 0x3000
}

/// Whether `c` is white space.
pub fn is_whitespace(c: char) -> (b: bool)
    ensures
        b == is_white_space(c),
{
    let n: u32 = c as u32;
    (0x09 <= n && n <= 0x0D) || n == 0x20 || n == 0x85 || n == 0xA0 || n == 0x1680 || (0x2000 <= n
        && n <= 0x200A) || n == 0x2028 || n == 0x2029 || n == 0x202F || n == 0x205F || n == 0x3000
}

/// `s` without its leading white space.
pub open spec fn trim_start_of(s: Seq<char>) -> Seq<char>
    decreases s.len(),
{
    if s.len() > 0 && is_white_space(s[0]) {
        trim_start_of(s.drop_first())
    } else {
        s
    }
}

/// `s` without its trailing white space.
pub open spec fn trim_end_of(s: Seq<char>) -> Seq<char>
    decreases s.len(),
{
    if s.len() > 0 && is_white_space(s.last()) {
        trim_end_of(s.drop_last())
    } else {
        s
    }
}

/// `s` without its leading and trailing white space.
pub open spec fn trimmed(s: Seq<char>) -> Seq<char> {
    trim_end_of(trim_start_of(s))
}

/// What trimming the start leaves: the text from some position on, with
/// nothing but white space before that position and no white space at it.
pub proof fn lemma_trim_start(s: Seq<char>)
    ensures
        exists|i: int|
            0 <= i <= s.len() && trim_start_of(s) == s.skip(i) && (forall|k: int|
                0 <= k < i ==> is_white_space(s[k])) && (i < s.len() ==> !is_white_space(s[i])),
    decreases s.len(),
{
    if s.len() > 0 && is_white_space(s[0]) {
        let rest = s.drop_first();
        lemma_trim_start(rest);
        let j = choose|j: int|
            0 <= j <= rest.len() && trim_start_of(rest) == rest.skip(j) && (forall|k: int|
                0 <= k < j ==> is_white_space(rest[k])) && (j < rest.len() ==> !is_white_space(
                rest[j],
            ));
        let i = j + 1;
        assert(rest.skip(j) == s.skip(i));
        assert forall|k: int| 0 <= k < i implies is_white_space(s[k]) by {
            if k > 0 {
                assert(s[k] == rest[k - 1]);
            }
        }
        assert(i < s.len() ==> s[i] == rest[j]);
        assert(0 <= i <= s.len() && trim_start_of(s) == s.skip(i) && (forall|k: int|
            0 <= k < i ==> is_white_space(s[k])) && (i < s.len() ==> !is_white_space(s[i])));
    } else {
        assert(s.skip(0) == s);
        assert(0 <= 0 <= s.len() && trim_start_of(s) == s.skip(0) && (forall|k: int|
            0 <= k < 0 ==> is_white_space(s[k])) && (0 < s.len() ==> !is_white_space(s[0])));
    }
}

/// What trimming the end leaves: the text up to some position, with nothing
/// but white space from that position on and no white space just before it.
pub proof fn lemma_trim_end(s: Seq<char>)
    ensures
        exists|j: int|
            0 <= j <= s.len() && trim_end_of(s) == s.take(j) && (forall|k: int|
                j <= k < s.len() ==> is_white_space(s[k])) && (0 < j ==> !is_white_space(
                s[j - 1],
            )),
    decreases s.len(),
{
    if s.len() > 0 && is_white_space(s.last()) {
        let init = s.drop_last();
        lemma_trim_end(init);
        let j = choose|j: int|
            0 <= j <= init.len() && trim_end_of(init) == init.take(j) && (forall|k: int|
                j <= k < init.len() ==> is_white_space(init[k])) && (0 < j ==> !is_white_space(
                init[j - 1],
            ));
        assert(init.take(j) == s.take(j));
        assert forall|k: int| j <= k < s.len() implies is_white_space(s[k]) by {
            if k < init.len() {
                assert(s[k] == init[k]);
            }
        }
        assert(0 < j ==> s[j - 1] == init[j - 1]);
        assert(0 <= j <= s.len() && trim_end_of(s) == s.take(j) && (forall|k: int|
            j <= k < s.len() ==> is_white_space(s[k])) && (0 < j ==> !is_white_space(s[j - 1])));
    } else {
        let j = s.len() as int;
        assert(s.take(j) == s);
        assert(0 <= j <= s.len() && trim_end_of(s) == s.take(j) && (forall|k: int|
            j <= k < s.len() ==> is_white_space(s[k])) && (0 < j ==> !is_white_space(s[j - 1])));
    }
}

/// A trimmed text is a stretch of the text it was made from; it neither
/// begins nor ends with white space; and trimming it again changes nothing.
pub proof fn lemma_trimmed(s: Seq<char>)
    ensures
        exists|i: int, j: int| 0 <= i <= j <= s.len() && trimmed(s) == s.subrange(i, j),
        trimmed(s).len() > 0 ==> !is_white_space(trimmed(s)[0]) && !is_white_space(
            trimmed(s).last(),
        ),
        trimmed(trimmed(s)) == trimmed(s),
{
    lemma_trim_start(s);
    let i = choose|i: int|
        0 <= i <= s.len() && trim_start_of(s) == s.skip(i) && (forall|k: int|
            0 <= k < i ==> is_white_space(s[k])) && (i < s.len() ==> !is_white_space(s[i]));
    let t = s.skip(i);
    lemma_trim_end(t);
    let j = choose|j: int|
        0 <= j <= t.len() && trim_end_of(t) == t.take(j) && (forall|k: int|
            j <= k < t.len() ==> is_white_space(t[k])) && (0 < j ==> !is_white_space(t[j - 1]));
    let r = t.take(j);
    assert(r == s.subrange(i, i + j));
    assert(0 <= i <= i + j <= s.len() && trimmed(s) == s.subrange(i, i + j));
    if r.len() > 0 {
        assert(r[0] == s[i]);
        assert(r.last() == t[j - 1]);
        // Trimmed once more: the first and the last character stay.
        assert(trim_start_of(r) == r);
        assert(trim_end_of(r) == r);
    } else {
        assert(trim_start_of(r) == r);
        assert(trim_end_of(r) == r);
    }
}

/// Whether `a` stands before `b` in the order of texts: character by
/// character, a text before every longer text that it begins.
pub open spec fn text_lt(a: Seq<char>, b: Seq<char>) -> bool
    decreases a.len(),
{
    if b.len() == 0 {
        false
    } else if a.len() == 0 {
        true
    } else if a[0] != b[0] {
        a[0] < b[0]
    } else {
        text_lt(a.drop_first(), b.drop_first())
    }
}

/// Whether `a` stands before `b` in the order of texts.
pub fn text_less(a: &str, b: &str) -> (r: bool)
    ensures
        r == text_lt(a@, b@),
{
    let x = chars_of(a);
    let y = chars_of(b);
    let mut i: usize = 0;
    assert(x@.skip(0) == x@ && y@.skip(0) == y@);
    while i < x.len() && i < y.len()
        invariant
            i <= x.len(),
            i <= y.len(),
            x@ == a@,
            y@ == b@,
            text_lt(a@, b@) == text_lt(x@.skip(i as int), y@.skip(i as int)),
        decreases x.len() - i,
    {
        assert(x@.skip(i as int)[0] == x@[i as int]);
        assert(y@.skip(i as int)[0] == y@[i as int]);
        if x[i] != y[i] {
            return x[i] < y[i];
        }
        assert(x@.skip(i as int).drop_first() == x@.skip(i + 1));
        assert(y@.skip(i as int).drop_first() == y@.skip(i + 1));
        i += 1;
    }
    i < y.len()
}

/// The order of texts is transitive.
pub proof fn lemma_text_lt_is_transitive(a: Seq<char>, b: Seq<char>, c: Seq<char>)
    requires
        text_lt(a, b),
        text_lt(b, c),
    ensures
        text_lt(a, c),
    decreases a.len(),
{
    if a.len() > 0 && b.len() > 0 && c.len() > 0 && a[0] == b[0] && b[0] == c[0] {
        lemma_text_lt_is_transitive(a.drop_first(), b.drop_first(), c.drop_first());
    }
}

/// Of two different texts one stands before the other.
pub proof fn lemma_text_lt_is_total(a: Seq<char>, b: Seq<char>)
    ensures
        a == b || text_lt(a, b) || text_lt(b, a),
    decreases a.len(),
{
    if a.len() > 0 && b.len() > 0 && a[0] == b[0] {
        lemma_text_lt_is_total(a.drop_first(), b.drop_first());
        if a.drop_first() == b.drop_first() {
            assert(a == seq![a[0]] + a.drop_first());
            assert(b == seq![b[0]] + b.drop_first());
        }
    } else if a.len() == 0 && b.len() == 0 {
        assert(a == b);
    }
}

/// The number of leading white-space characters of `v`.
fn leading_white_space(v: &Vec<char>) -> (i: usize)
    ensures
        i <= v.len(),
        trim_start_of(v@) == v@.skip(i as int),
{
    let mut i: usize = 0;
    assert(v@.skip(0) == v@);
    while i < v.len() && is_whitespace(v[i])
        invariant
            i <= v.len(),
            trim_start_of(v@) == trim_start_of(v@.skip(i as int)),
        decreases v.len() - i,
    {
        assert(v@.skip(i as int).drop_first() == v@.skip(i + 1));
        i += 1;
    }
    i
}

/// The end of `v[from..]` once its trailing white space is cut off.
fn trailing_white_space(v: &Vec<char>, from: usize) -> (j: usize)
    requires
        from <= v.len(),
    ensures
        from <= j <= v.len(),
        trim_end_of(v@.skip(from as int)) == v@.subrange(from as int, j as int),
{
    let mut j: usize = v.len();
    assert(v@.skip(from as int) == v@.subrange(from as int, j as int));
    while j > from && is_whitespace(v[j - 1])
        invariant
            from <= j <= v.len(),
            trim_end_of(v@.skip(from as int)) == trim_end_of(v@.subrange(from as int, j as int)),
        decreases j,
    {
        assert(v@.subrange(from as int, j as int).drop_last() == v@.subrange(
            from as int,
            j - 1,
        ));
        j -= 1;
    }
    j
}

/// Removes leading and trailing white space.
pub fn trim(v: &Vec<char>) -> (r: String)
    ensures
        r@ == trimmed(v@),
{
    let i = leading_white_space(v);
    let j = trailing_white_space(v, i);
    string_of_range(v, i, j)
}

/// Removes trailing white space.
pub fn trim_end(v: &Vec<char>) -> (r: String)
    ensures
        r@ == trim_end_of(v@),
{
    assert(v@.skip(0) == v@);
    let j = trailing_white_space(v, 0);
    string_of_range(v, 0, j)
}

// ---------------------------------------------------------------------------
// Searching, splitting and joining
// ---------------------------------------------------------------------------

/// The position of the first `c` in `s`, or the length of `s` where it has none.
pub open spec fn index_of(s: Seq<char>, c: char) -> int
    decreases s.len(),
{
    if s.len() == 0 {
        0
    } else if s[0] == c {
        0
    } else {
        1 + index_of(s.drop_first(), c)
    }
}

/// Finds the first `c` in `v`.
pub fn find_char(v: &Vec<char>, c: char) -> (r: Option<usize>)
    ensures
        match r {
            Some(i) => i == index_of(v@, c) && i < v.len(),
            None => index_of(v@, c) == v.len(),
        },
{
    let mut i: usize = 0;
    assert(v@.skip(0) == v@);
    while i < v.len()
        invariant
            i <= v.len(),
            index_of(v@, c) == i + index_of(v@.skip(i as int), c),
        decreases v.len() - i,
    {
        if v[i] == c {
            return Some(i);
        }
        assert(v@.skip(i as int).drop_first() == v@.skip(i + 1));
        i += 1;
    }
    None
}

/// The pieces of `s` between the occurrences of `sep`: one more piece than
/// there are separators, so a text without `sep` is its own single piece.
pub open spec fn split_on(s: Seq<char>, sep: char) -> Seq<Seq<char>>
    decreases s.len(),
{
    if s.len() == 0 {
        seq![Seq::<char>::empty()]
    } else {
        let before = split_on(s.drop_last(), sep);
        if s.last() == sep {
            before.push(Seq::<char>::empty())
        } else {
            before.drop_last().push(before.last().push(s.last()))
        }
    }
}

/// Splits `v` at every `sep`.
pub fn split(v: &Vec<char>, sep: char) -> (r: Vec<Vec<char>>)
    ensures
        vecs_view(r@) == split_on(v@, sep),
        r.len() >= 1,
{
    let mut done: Vec<Vec<char>> = Vec::new();
    let mut current: Vec<char> = Vec::new();
    let mut i: usize = 0;
    assert(v@.take(0) == Seq::<char>::empty());
    assert(vecs_view(done@).push(current@) == seq![Seq::<char>::empty()]);
    while i < v.len()
        invariant
            i <= v.len(),
            split_on(v@.take(i as int), sep) == vecs_view(done@).push(current@),
        decreases v.len() - i,
    {
        let ghost before = vecs_view(done@).push(current@);
        assert(v@.take(i + 1).drop_last() == v@.take(i as int));
        assert(v@.take(i + 1).last() == v@[i as int]);
        if v[i] == sep {
            done.push(current);
            current = Vec::new();
            assert(vecs_view(done@) == before);
        } else {
            current.push(v[i]);
            assert(before.drop_last() == vecs_view(done@));
            assert(before.last().push(v@[i as int]) == current@);
        }
        i += 1;
    }
    assert(v@.take(v.len() as int) == v@);
    done.push(current);
    assert(vecs_view(done@) == split_on(v@, sep));
    done
}

/// `parts` written one after the other with `sep` between neighbours.
pub open spec fn joined(parts: Seq<Seq<char>>, sep: Seq<char>) -> Seq<char>
    decreases parts.len(),
{
    if parts.len() == 0 {
        Seq::<char>::empty()
    } else if parts.len() == 1 {
        parts[0]
    } else {
        joined(parts.drop_last(), sep) + sep + parts.last()
    }
}

/// Joins `parts` with `sep` between neighbours.
pub fn join_strs(parts: &Vec<&str>, sep: &str) -> (r: String)
    ensures
        r@ == joined(strs_view(parts@), sep@),
{
    let mut out = String::new();
    let mut i: usize = 0;
    assert(strs_view(parts@).take(0) == Seq::<Seq<char>>::empty());
    while i < parts.len()
        invariant
            i <= parts.len(),
            out@ == joined(strs_view(parts@).take(i as int), sep@),
        decreases parts.len() - i,
    {
        let ghost upto = strs_view(parts@).take(i + 1);
        assert(upto.drop_last() == strs_view(parts@).take(i as int));
        assert(upto.last() == parts@[i as int]@);
        if i > 0 {
            out.append(sep);
        } else {
            assert(out@ + parts@[i as int]@ == parts@[i as int]@);
        }
        out.append(parts[i]);
        i += 1;
    }
    assert(strs_view(parts@).take(parts.len() as int) == strs_view(parts@));
    out
}

/// The texts of `list`, borrowed.
pub fn borrow_all(list: &Vec<String>) -> (r: Vec<&str>)
    ensures
        strs_view(r@) == strings_view(list@),
{
    let mut borrowed: Vec<&str> = Vec::new();
    let mut i: usize = 0;
    while i < list.len()
        invariant
            i <= list.len(),
            strs_view(borrowed@) == strings_view(list@).take(i as int),
        decreases list.len() - i,
    {
        let ghost before = strs_view(borrowed@);
        borrowed.push(list[i].as_str());
        assert(strs_view(borrowed@) == before.push(list@[i as int]@));
        assert(strings_view(list@).take(i + 1) == before.push(list@[i as int]@));
        i += 1;
    }
    assert(strings_view(list@).take(list.len() as int) == strings_view(list@));
    borrowed
}

/// Joins `parts` with `sep` between neighbours.
pub fn join(parts: &Vec<String>, sep: &str) -> (r: String)
    ensures
        r@ == joined(strings_view(parts@), sep@),
{
    join_strs(&borrow_all(parts), sep)
}

/// `a` followed by `b`.
pub fn concat2(a: &str, b: &str) -> (r: String)
    ensures
        r@ == a@ + b@,
{
    let mut out = String::new();
    out.append(a);
    out.append(b);
    assert(Seq::<char>::empty() + a@ == a@);
    out
}

/// `a`, `b` and `c` one after the other.
pub fn concat3(a: &str, b: &str, c: &str) -> (r: String)
    ensures
        r@ == a@ + b@ + c@,
{
    let mut out = concat2(a, b);
    out.append(c);
    out
}

// ---------------------------------------------------------------------------
// Lines
// ---------------------------------------------------------------------------

/// `line` without one carriage return at its end.
pub open spec fn without_carriage_return(line: Seq<char>) -> Seq<char> {
    if line.len() > 0 && line.last() == '\r' {
        line.drop_last()
    } else {
        line
    }
}

/// The lines of a text. A line ends at a line feed, or at a carriage return
/// and a line feed; neither belongs to the line. What follows the last line
/// feed is a line of its own unless it is empty, and is taken as it is.
pub open spec fn lines_of(s: Seq<char>) -> Seq<Seq<char>> {
    let pieces = split_on(s, '\n');
    let ended = pieces.drop_last().map_values(|l: Seq<char>| without_carriage_return(l));
    if pieces.last().len() == 0 {
        ended
    } else {
        ended.push(pieces.last())
    }
}

/// The lines of a text.
pub fn list_lines(s: &str) -> (r: Vec<String>)
    ensures
        strings_view(r@) == lines_of(s@),
{
    let pieces = split(&chars_of(s), '\n');
    let ghost all = vecs_view(pieces@);
    let ghost ended = all.drop_last().map_values(|l: Seq<char>| without_carriage_return(l));
    let mut out: Vec<String> = Vec::new();
    let mut i: usize = 0;
    while i + 1 < pieces.len()
        invariant
            i + 1 <= pieces.len(),
            all == vecs_view(pieces@),
            ended == all.drop_last().map_values(|l: Seq<char>| without_carriage_return(l)),
            strings_view(out@) == ended.take(i as int),
        decreases pieces.len() - i,
    {
        let ghost before = strings_view(out@);
        let piece = &pieces[i];
        assert(all[i as int] == piece@);
        let end: usize = if piece.len() > 0 && piece[piece.len() - 1] == '\r' {
            piece.len() - 1
        } else {
            piece.len()
        };
        let line = string_of_range(piece, 0, end);
        assert(line@ == without_carriage_return(piece@));
        out.push(line);
        assert(strings_view(out@) == before.push(line@));
        assert(ended.take(i + 1) == before.push(line@));
        i += 1;
    }
    assert(ended.take(ended.len() as int) == ended);
    let last = &pieces[pieces.len() - 1];
    assert(all.last() == last@);
    if last.len() > 0 {
        let ghost before = strings_view(out@);
        let line = string_of(last);
        out.push(line);
        assert(strings_view(out@) == before.push(line@));
    }
    out
}

} // verus!

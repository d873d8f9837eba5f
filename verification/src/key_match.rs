//! Finding a bundle key from the beginning of one.

use crate::text::{chars_of, lowercase_of, starts_with, strings_view, to_lowercase};
use vstd::prelude::*;

verus! {

/// Every bundle key is this many bytes long.
pub const FULL_KEY_SIZE: usize = 16;

/// Whether `key` has the length of a whole bundle key, counted in the bytes
/// of its UTF-8 form.
pub open spec fn is_full_key_text(key: Seq<char>) -> bool {
    vstd::utf8::encode_utf8(key).len() == FULL_KEY_SIZE
}

/// The keys among `keys` whose lower-case form `lower_target` begins, in the
/// order given. `lower_keys` holds the lower-case form of each key.
pub open spec fn keys_with_prefix(
    keys: Seq<Seq<char>>,
    lower_keys: Seq<Seq<char>>,
    lower_target: Seq<char>,
) -> Seq<Seq<char>>
    decreases keys.len(),
{
    if keys.len() == 0 || lower_keys.len() != keys.len() {
        Seq::<Seq<char>>::empty()
    } else {
        let before = keys_with_prefix(keys.drop_last(), lower_keys.drop_last(), lower_target);
        if lower_target.is_prefix_of(lower_keys.last()) {
            before.push(keys.last())
        } else {
            before
        }
    }
}

/// Every text of `keys` in lower case.
pub open spec fn lowered_keys(keys: Seq<Seq<char>>) -> Seq<Seq<char>> {
    keys.map_values(|k: Seq<char>| lowercase_of(k))
}

/// The keys that `target` stands for: `target` itself where it is as long as
/// a whole key; else the keys that begin with it, letter case set aside.
pub open spec fn matches_of(keys: Seq<Seq<char>>, target: Seq<char>) -> Seq<Seq<char>> {
    if is_full_key_text(target) {
        seq![target]
    } else {
        keys_with_prefix(keys, lowered_keys(keys), lowercase_of(target))
    }
}

/// Picks the keys whose lower-case form begins with `lower_target`.
pub fn select_by_prefix(keys: &Vec<String>, lower_keys: &Vec<String>, lower_target: &str) -> (r:
    Vec<String>)
    requires
        keys.len() == lower_keys.len(),
    ensures
        strings_view(r@) == keys_with_prefix(
            strings_view(keys@),
            strings_view(lower_keys@),
            lower_target@,
        ),
{
    let target = chars_of(lower_target);
    let mut out: Vec<String> = Vec::new();
    let mut i: usize = 0;
    assert(strings_view(keys@).take(0) == Seq::<Seq<char>>::empty());
    while i < keys.len()
        invariant
            i <= keys.len(),
            keys.len() == lower_keys.len(),
            target@ == lower_target@,
            strings_view(out@) == keys_with_prefix(
                strings_view(keys@).take(i as int),
                strings_view(lower_keys@).take(i as int),
                lower_target@,
            ),
        decreases keys.len() - i,
    {
        let ghost ks = strings_view(keys@).take(i + 1);
        let ghost ls = strings_view(lower_keys@).take(i + 1);
        assert(ks.drop_last() == strings_view(keys@).take(i as int));
        assert(ls.drop_last() == strings_view(lower_keys@).take(i as int));
        assert(ks.last() == keys@[i as int]@);
        assert(ls.last() == lower_keys@[i as int]@);
        let lower = chars_of(lower_keys[i].as_str());
        if starts_with(&lower, &target) {
            let ghost before = strings_view(out@);
            let key = keys[i].clone();
            out.push(key);
            assert(strings_view(out@) == before.push(keys@[i as int]@));
        }
        i += 1;
    }
    assert(strings_view(keys@).take(keys.len() as int) == strings_view(keys@));
    assert(strings_view(lower_keys@).take(keys.len() as int) == strings_view(lower_keys@));
    out
}

/// A search for the keys that begin with a target.
pub struct KeyMatch {
    keys: Vec<String>,
    target: String,
}

impl KeyMatch {
    /// The keys searched, as texts.
    pub closed spec fn keys(&self) -> Seq<Seq<char>> {
        strings_view(self.keys@)
    }

    /// The text looked for.
    pub closed spec fn target(&self) -> Seq<char> {
        self.target@
    }

    /// A search for `target` among `keys`.
    pub fn new(keys: Vec<String>, target: &str) -> (r: Self)
        ensures
            r.keys() == strings_view(keys@),
            r.target() == target@,
    {
        Self { keys, target: target.to_owned() }
    }

    fn is_full_key(key: &str) -> (r: bool)
        ensures
            r == is_full_key_text(key@),
    {
        key.as_bytes().len() == FULL_KEY_SIZE
    }

    /// The keys that begin with the target, letter case set aside, in the
    /// order given. A target as long as a whole key is returned as it is,
    /// without a search.
    pub fn get_matches(&self) -> (r: Vec<String>)
        ensures
            strings_view(r@) == matches_of(self.keys(), self.target()),
    {
        if Self::is_full_key(self.target.as_str()) {
            let mut out: Vec<String> = Vec::new();
            out.push(self.target.clone());
            assert(strings_view(out@) == seq![self.target@]);
            return out;
        }
        let lowercase_target = to_lowercase(self.target.as_str());
        let mut lower_keys: Vec<String> = Vec::new();
        let mut i: usize = 0;
        while i < self.keys.len()
            invariant
                i <= self.keys.len(),
                strings_view(lower_keys@) == lowered_keys(strings_view(self.keys@)).take(i as int),
            decreases self.keys.len() - i,
        {
            let ghost before = strings_view(lower_keys@);
            let lower = to_lowercase(self.keys[i].as_str());
            assert(lower@ == lowered_keys(strings_view(self.keys@))[i as int]);
            lower_keys.push(lower);
            assert(strings_view(lower_keys@) == before.push(lower@));
            assert(lowered_keys(strings_view(self.keys@)).take(i + 1) == before.push(lower@));
            i += 1;
        }
        assert(lowered_keys(strings_view(self.keys@)).take(self.keys.len() as int) == lowered_keys(
            strings_view(self.keys@),
        ));
        select_by_prefix(&self.keys, &lower_keys, lowercase_target.as_str())
    }
}

} // verus!

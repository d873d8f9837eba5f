//! Which products of a catalog a selection asks for.

use crate::models::Product;
use crate::text::{borrow_all, strings_view};
use crate::util::{lowered, share_an_element, str_vectors_intersect};
use vstd::prelude::*;

verus! {

/// What to download from a bundle.
#[derive(Debug)]
pub struct Selection {
    /// The item numbers asked for, counted from 1; none means every item.
    pub item_indices: Vec<usize>,
    /// The formats asked for; none means every format.
    pub formats: Vec<String>,
    /// Products of this size or more are left out; 0 sets no limit.
    pub max_size: u64,
    /// Whether to fetch the torrent of each file in place of the file.
    pub torrents_only: bool,
}

impl Selection {
    /// Whether the item with this number, counted from 1, is asked for.
    pub open spec fn admits_item(&self, number: int) -> bool {
        self.item_indices@.len() == 0 || exists|k: int|
            0 <= k < self.item_indices@.len() && self.item_indices@[k] == number
    }

    /// Whether a product of this size is small enough: strictly below the
    /// limit, where there is one.
    pub open spec fn admits_size(&self, size: nat) -> bool {
        self.max_size == 0 || size < self.max_size
    }

    /// Whether one of these formats is asked for, letter case set aside.
    pub open spec fn admits_formats(&self, formats: Seq<Seq<char>>) -> bool {
        self.formats@.len() == 0 || share_an_element(
            lowered(formats),
            lowered(strings_view(self.formats@)),
        )
    }

    /// Whether the product at `index`, counted from 0, passes all three
    /// tests.
    pub open spec fn admits(&self, index: int, product: Product) -> bool {
        &&& self.admits_item(index + 1)
        &&& self.admits_size(product.size())
        &&& self.admits_formats(product.format_names())
    }

    fn has_item(&self, number: usize) -> (r: bool)
        ensures
            r == self.admits_item(number as int),
    {
        if self.item_indices.len() == 0 {
            return true;
        }
        let mut k: usize = 0;
        while k < self.item_indices.len()
            invariant
                k <= self.item_indices.len(),
                forall|j: int| 0 <= j < k ==> self.item_indices@[j] != number,
            decreases self.item_indices.len() - k,
        {
            if self.item_indices[k] == number {
                return true;
            }
            k += 1;
        }
        false
    }

    /// Whether the product at `index`, counted from 0, passes the item,
    /// size and format tests.
    pub fn passes(&self, index: usize, product: &Product) -> (r: bool)
        requires
            index < usize::MAX,
        ensures
            r == self.admits(index as int, *product),
    {
        if !self.has_item(index + 1) {
            return false;
        }
        if self.max_size != 0 {
            let small = match product.checked_total_size() {
                Some(size) => size < self.max_size,
                None => false,
            };
            if !small {
                return false;
            }
        }
        if self.formats.len() == 0 {
            return true;
        }
        let wanted = borrow_all(&self.formats);
        let offered = product.formats_as_vec();
        str_vectors_intersect(offered.as_slice(), wanted.as_slice())
    }
}

/// The positions, counted from 0, of the products among the first `n` that
/// the selection admits, in rising order.
pub open spec fn selected_positions(products: Seq<Product>, selection: Selection, n: int) -> Seq<
    int,
>
    decreases n,
{
    if n <= 0 {
        Seq::<int>::empty()
    } else {
        let before = selected_positions(products, selection, n - 1);
        if selection.admits(n - 1, products[n - 1]) {
            before.push(n - 1)
        } else {
            before
        }
    }
}

/// The selected positions are exactly those of the admitted products, each
/// once and in catalog order.
pub proof fn lemma_selected_positions(products: Seq<Product>, selection: Selection, n: int)
    requires
        0 <= n <= products.len(),
    ensures
        forall|k: int|
            0 <= k < selected_positions(products, selection, n).len() ==> 0
                <= #[trigger] selected_positions(products, selection, n)[k] < n,
        forall|j: int, k: int|
            0 <= j < k < selected_positions(products, selection, n).len() ==> selected_positions(
                products,
                selection,
                n,
            )[j] < selected_positions(products, selection, n)[k],
        forall|i: int|
            0 <= i < n ==> (selected_positions(products, selection, n).contains(i)
                <==> selection.admits(i, #[trigger] products[i])),
        selected_positions(products, selection, n).len() <= n,
    decreases n,
{
    if n > 0 {
        lemma_selected_positions(products, selection, n - 1);
        let before = selected_positions(products, selection, n - 1);
        let now = selected_positions(products, selection, n);
        assert forall|i: int| 0 <= i < n implies (now.contains(i) <==> selection.admits(
            i,
            #[trigger] products[i],
        )) by {
            if before.contains(i) {
                let k = choose|k: int| 0 <= k < before.len() && before[k] == i;
                assert(now[k] == i);
            }
            if now.contains(i) && i < n - 1 {
                let k = choose|k: int| 0 <= k < now.len() && now[k] == i;
                assert(before[k] == i);
            }
            if i == n - 1 && selection.admits(i, products[i]) {
                assert(now[before.len() as int] == i);
            }
            if i == n - 1 && now.contains(i) && !selection.admits(i, products[i]) {
                let k = choose|k: int| 0 <= k < now.len() && now[k] == i;
                assert(before[k] < n - 1);
            }
        }
    }
}

/// The positions, counted from 0, of the products that the selection
/// admits, in catalog order.
pub fn select_indices(products: &Vec<Product>, selection: &Selection) -> (r: Vec<usize>)
    ensures
        r@.len() == selected_positions(products@, *selection, products.len() as int).len(),
        forall|k: int|
            0 <= k < r@.len() ==> r@[k] == selected_positions(
                products@,
                *selection,
                products.len() as int,
            )[k],
{
    let mut out: Vec<usize> = Vec::new();
    let mut i: usize = 0;
    while i < products.len()
        invariant
            i <= products.len(),
            out@.len() == selected_positions(products@, *selection, i as int).len(),
            forall|k: int|
                0 <= k < out@.len() ==> out@[k] == selected_positions(
                    products@,
                    *selection,
                    i as int,
                )[k],
        decreases products.len() - i,
    {
        if selection.passes(i, &products[i]) {
            out.push(i);
        }
        i += 1;
    }
    out
}

/// The products that the selection admits, in catalog order.
pub fn select<'a>(products: &'a Vec<Product>, selection: &Selection) -> (r: Vec<&'a Product>)
    ensures
        r@.len() == selected_positions(products@, *selection, products.len() as int).len(),
        forall|k: int|
            0 <= k < r@.len() ==> *r@[k] == products@[selected_positions(
                products@,
                *selection,
                products.len() as int,
            )[k]],
{
    let indices = select_indices(products, selection);
    proof {
        lemma_selected_positions(products@, *selection, products.len() as int);
    }
    let mut out: Vec<&'a Product> = Vec::new();
    let mut k: usize = 0;
    while k < indices.len()
        invariant
            k <= indices.len(),
            out@.len() == k,
            forall|j: int| 0 <= j < indices@.len() ==> 0 <= #[trigger] indices@[j] < products.len(),
            forall|j: int| 0 <= j < k ==> *out@[j] == products@[indices@[j] as int],
        decreases indices.len() - k,
    {
        out.push(&products[indices[k]]);
        k += 1;
    }
    out
}

} // verus!

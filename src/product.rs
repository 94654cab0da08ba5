use std::collections::BTreeMap;

use vstd::prelude::*;

use crate::money::Euro;
use crate::text::{lemma_decimal_text_len, lemma_fixed_digits_sort, lemma_padded_is_fixed, sorts_before, ten_pow, padded_text, path_in, path_in_root, push_padded, string_of_chars};

verus! {

broadcast use {vstd::std_specs::btree::group_btree_axioms, vstd::laws_cmp::group_laws_cmp};

/// How many digits a product directory name gives its identifier: enough for every `u32`.
pub const ID_WIDTH: usize = 10;

/// The name of a product's directory: `p` and the identifier, zero-padded to ten digits.
pub open spec fn product_dir_name(id: u32) -> Seq<char> {
    seq!['p'] + padded_text(id as nat, ID_WIDTH as nat)
}

/// The path of a product's directory under the storage root `root`.
pub open spec fn product_dir_path(root: Seq<char>, id: u32) -> Seq<char> {
    path_in_root(root, product_dir_name(id))
}

/// Every product directory name has the same length: `p` and ten digits.
pub proof fn lemma_dir_name_fixed_width(id: u32)
    ensures
        product_dir_name(id).len() == 1 + ID_WIDTH,
{
    reveal_with_fuel(ten_pow, 11);
    assert(ten_pow(10) == 10000000000);
    lemma_decimal_text_len(id as nat, 10);
}

/// Directory names sort as their identifiers do: the smaller identifier's name, of the same
/// length, comes first as text.
pub proof fn lemma_dir_names_sort_by_id(a: u32, b: u32)
    requires
        a < b,
    ensures
        product_dir_name(a).len() == product_dir_name(b).len(),
        sorts_before(product_dir_name(a), product_dir_name(b)),
{
    reveal_with_fuel(ten_pow, 11);
    assert(ten_pow(10) == 10000000000);
    lemma_padded_is_fixed(a as nat, 10);
    lemma_padded_is_fixed(b as nat, 10);
    lemma_fixed_digits_sort(a as nat, b as nat, 10);
    let x = padded_text(a as nat, 10);
    let y = padded_text(b as nat, 10);
    let i = choose|i: int|
        0 <= i < x.len() && i < y.len() && x.take(i) == y.take(i) && (x[i] as u32) < (
        y[i] as u32);
    let na = product_dir_name(a);
    let nb = product_dir_name(b);
    assert(na.take(i + 1) =~= seq!['p'] + x.take(i));
    assert(nb.take(i + 1) =~= seq!['p'] + y.take(i));
    assert(na[i + 1] == x[i]);
    assert(nb[i + 1] == y[i]);
}

/// What occupies a path on disk.
#[derive(Clone, Copy, Debug, PartialEq, Eq, Structural)]
pub enum EntryKind {
    /// Nothing is there.
    Missing,
    /// A directory is there.
    Directory,
    /// Something that is not a directory is there.
    NotDirectory,
}

/// Why a product's directory cannot be used.
#[derive(Clone, Copy, Debug, PartialEq, Eq, Structural)]
pub enum ProductError {
    /// Something that is not a directory occupies the product's path.
    NotADirectory,
}

/// A handle on one product's directory, which holds its price history.
pub struct Product {
    id: u32,
    path: String,
}

impl Product {
    pub closed spec fn id_view(&self) -> u32 {
        self.id
    }

    pub closed spec fn path_view(&self) -> Seq<char> {
        self.path@
    }

    /// The handle of product `id` under the storage root `db_path`.
    fn at(id: u32, db_path: &str) -> (r: Product)
        ensures
            r.id_view() == id,
            r.path_view() == product_dir_path(db_path@, id),
    {
        let mut name: Vec<char> = Vec::new();
        name.push('p');
        push_padded(id as u64, ID_WIDTH, &mut name);
        assert(name@ =~= product_dir_name(id));
        let name = string_of_chars(&name);
        Product { id, path: path_in(db_path, name.as_str()) }
    }

    /// The handle for a new product, given what occupies its directory's path now. Where
    /// nothing is there, the caller creates the directory before using the handle.
    pub fn create(id: u32, db_path: &str, entry: EntryKind) -> (r: Result<Product, ProductError>)
        ensures
            entry == EntryKind::NotDirectory <==> r is Err,
            r is Ok ==> r->Ok_0.id_view() == id && r->Ok_0.path_view() == product_dir_path(
                db_path@,
                id,
            ),
    {
        match entry {
            EntryKind::NotDirectory => Err(ProductError::NotADirectory),
            _ => Ok(Product::at(id, db_path)),
        }
    }

    /// The handle of an existing product, given what occupies its directory's path: none
    /// unless a directory is there.
    pub fn open(id: u32, db_path: &str, entry: EntryKind) -> (r: Option<Product>)
        ensures
            r is Some <==> entry == EntryKind::Directory,
            r is Some ==> r->Some_0.id_view() == id && r->Some_0.path_view() == product_dir_path(
                db_path@,
                id,
            ),
    {
        match entry {
            EntryKind::Directory => Some(Product::at(id, db_path)),
            _ => None,
        }
    }

    pub fn id(&self) -> (r: u32)
        ensures
            r == self.id_view(),
    {
        self.id
    }

    /// The path of the product's directory.
    pub fn path(&self) -> (r: &str)
        ensures
            r@ == self.path_view(),
    {
        self.path.as_str()
    }
}

/// A product's price history: for each day (counted from the first day of the common era)
/// at most one price.
pub struct Prices {
    pub prices: BTreeMap<i32, Euro>,
}

impl Prices {
    /// The price of each day.
    pub open spec fn price_map(&self) -> Map<i32, Euro> {
        self.prices@
    }

    /// A history without prices.
    pub fn empty() -> (r: Prices)
        ensures
            r.price_map() == Map::<i32, Euro>::empty(),
    {
        Prices { prices: BTreeMap::new() }
    }

    /// The price of `day`, if it has one.
    pub fn get(&self, day: i32) -> (r: Option<Euro>)
        ensures
            r == (if self.price_map().contains_key(day) {
                Some(self.price_map()[day])
            } else {
                None::<Euro>
            }),
    {
        match self.prices.get(&day) {
            Some(p) => Some(*p),
            None => None,
        }
    }

    /// Sets the price of `day`, replacing the one it had.
    pub fn insert(&mut self, day: i32, price: Euro)
        ensures
            final(self).price_map() == old(self).price_map().insert(day, price),
    {
        self.prices.insert(day, price);
    }

    /// How many days have a price.
    pub fn len(&self) -> (r: usize)
        ensures
            r == self.price_map().len(),
    {
        self.prices.len()
    }
}

} // verus!

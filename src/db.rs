use vstd::prelude::*;

use crate::index::IndexData;
use crate::product::{EntryKind, Product, ProductError, product_dir_path};
use crate::text::{path_in, path_in_root};

verus! {

/// The name of the file whose presence marks a storage root as in use.
pub open spec fn lock_file_name() -> Seq<char> {
    seq!['.', 'l', 'o', 'c', 'k']
}

/// The name of the file that holds the index of known products.
pub open spec fn index_file_name() -> Seq<char> {
    seq!['i', 'n', 'd', 'e', 'x', '.', 'j', 's', 'o', 'n']
}

/// Whether adding `id` to the known identifiers `known` makes a new product.
pub open spec fn adds_new(known: Set<u32>, id: u32) -> bool {
    !known.contains(id)
}

/// What came of the attempt to take a storage root's lock.
#[derive(Clone, Copy, Debug, PartialEq, Eq, Structural)]
pub enum LockOutcome {
    /// The lock file was created: this process owns the root.
    Acquired,
    /// The lock file was already there: another process owns the root.
    AlreadyLocked,
}

/// Why a store cannot be opened.
#[derive(Clone, Copy, Debug, PartialEq, Eq, Structural)]
pub enum DbError {
    /// Something that is not a directory occupies the storage root's path.
    RootNotADirectory,
    /// The storage root is locked by another live store.
    Locked,
}

/// The path of the lock file of the storage root `root`.
pub fn lock_path(root: &str) -> (r: String)
    ensures
        r@ == path_in_root(root@, lock_file_name()),
{
    let name = ".lock";
    proof {
        reveal_strlit(".lock");
        assert(name@ =~= lock_file_name());
    }
    path_in(root, name)
}

/// The path of the index file of the storage root `root`.
pub fn index_path(root: &str) -> (r: String)
    ensures
        r@ == path_in_root(root@, index_file_name()),
{
    let name = "index.json";
    proof {
        reveal_strlit("index.json");
        assert(name@ =~= index_file_name());
    }
    path_in(root, name)
}

/// What a store decides at opening, given what occupies the storage root's path and, where
/// that is a directory or nothing, what came of taking the lock.
pub fn check_open(root: EntryKind, lock: LockOutcome) -> (r: Result<(), DbError>)
    ensures
        root == EntryKind::NotDirectory ==> r == Err::<(), DbError>(DbError::RootNotADirectory),
        root != EntryKind::NotDirectory ==> (r == Err::<(), DbError>(DbError::Locked) <==> lock
            == LockOutcome::AlreadyLocked),
        r is Ok <==> root != EntryKind::NotDirectory && lock == LockOutcome::Acquired,
{
    match root {
        EntryKind::NotDirectory => Err(DbError::RootNotADirectory),
        _ => match lock {
            LockOutcome::Acquired => Ok(()),
            LockOutcome::AlreadyLocked => Err(DbError::Locked),
        },
    }
}

/// A store of products under one storage root: the index of known products and the root's
/// path. The root's lock is held by whoever drives the store for as long as it lives.
pub struct Db {
    db_path: String,
    index: IndexData,
}

impl Db {
    pub closed spec fn root_view(&self) -> Seq<char> {
        self.db_path@
    }

    pub closed spec fn index_view(&self) -> IndexData {
        self.index
    }

    /// The known identifiers.
    pub open spec fn known(&self) -> Set<u32> {
        self.index_view().id_set()
    }

    pub open spec fn wf(&self) -> bool {
        self.index_view().wf()
    }

    /// A store under `db_path` over a loaded index, given what occupies the root's path and
    /// what came of taking the root's lock: it opens only on a directory (or a path the caller
    /// has just made one) whose lock this process took.
    pub fn new(db_path: String, root: EntryKind, lock: LockOutcome, index: IndexData) -> (r: Result<
        Db,
        DbError,
    >)
        requires
            index.wf(),
        ensures
            root == EntryKind::NotDirectory ==> r == Err::<Db, DbError>(DbError::RootNotADirectory),
            root != EntryKind::NotDirectory && lock == LockOutcome::AlreadyLocked ==> r == Err::<
                Db,
                DbError,
            >(DbError::Locked),
            r is Ok <==> root != EntryKind::NotDirectory && lock == LockOutcome::Acquired,
            r is Ok ==> r->Ok_0.wf() && r->Ok_0.root_view() == db_path@ && r->Ok_0.index_view()
                == index,
    {
        match check_open(root, lock) {
            Ok(()) => Ok(Db { db_path, index }),
            Err(e) => Err(e),
        }
    }

    /// The storage root.
    pub fn root(&self) -> (r: &str)
        ensures
            r@ == self.root_view(),
    {
        self.db_path.as_str()
    }

    /// The index, to be written out after each change.
    pub fn index(&self) -> (r: &IndexData)
        ensures
            *r == self.index_view(),
    {
        &self.index
    }

    /// Adds product `id` to the index. Gives its handle where it is new, none where it was
    /// known already (the index is then unchanged). `entry` is what occupies the product's
    /// directory path; where nothing does, the caller creates the directory. Where something
    /// that is not a directory is there, a new product is refused and the index is unchanged.
    pub fn add_product(&mut self, id: u32, entry: EntryKind) -> (r: Result<
        Option<Product>,
        ProductError,
    >)
        requires
            old(self).wf(),
        ensures
            final(self).wf(),
            final(self).root_view() == old(self).root_view(),
            !adds_new(old(self).known(), id) ==> r == Ok::<Option<Product>, ProductError>(None)
                && final(self).index_view().ids() == old(self).index_view().ids(),
            adds_new(old(self).known(), id) && entry == EntryKind::NotDirectory ==> r == Err::<
                Option<Product>,
                ProductError,
            >(ProductError::NotADirectory) && final(self).index_view().ids() == old(
                self,
            ).index_view().ids(),
            adds_new(old(self).known(), id) && entry != EntryKind::NotDirectory ==> r is Ok
                && r->Ok_0 is Some && final(self).known() == old(self).known().insert(id),
            r is Ok && r->Ok_0 is Some ==> r->Ok_0->Some_0.id_view() == id
                && r->Ok_0->Some_0.path_view() == product_dir_path(old(self).root_view(), id),
    {
        if self.index.contains(id) {
            return Ok(None);
        }
        match Product::create(id, self.db_path.as_str(), entry) {
            Ok(p) => {
                self.index.add_product_id(id);
                Ok(Some(p))
            },
            Err(e) => Err(e),
        }
    }

    /// The handle of product `id`, found by its directory alone: `entry` is what occupies
    /// the directory's path.
    pub fn get_product(&self, id: u32, entry: EntryKind) -> (r: Option<Product>)
        ensures
            r is Some <==> entry == EntryKind::Directory,
            r is Some ==> r->Some_0.id_view() == id && r->Some_0.path_view() == product_dir_path(
                self.root_view(),
                id,
            ),
    {
        Product::open(id, self.db_path.as_str(), entry)
    }

    /// The handle of product `id`, making it known and, where its directory is missing, to be
    /// created by the caller. Where something that is not a directory occupies the product's
    /// path, it fails and the index is unchanged.
    pub fn get_or_add_product(&mut self, id: u32, entry: EntryKind) -> (r: Result<
        Product,
        ProductError,
    >)
        requires
            old(self).wf(),
        ensures
            final(self).wf(),
            final(self).root_view() == old(self).root_view(),
            r is Err <==> entry == EntryKind::NotDirectory,
            r is Err ==> r == Err::<Product, ProductError>(ProductError::NotADirectory)
                && final(self).index_view().ids() == old(self).index_view().ids(),
            r is Ok ==> final(self).known() == old(self).known().insert(id),
            r is Ok ==> r->Ok_0.id_view() == id && r->Ok_0.path_view() == product_dir_path(
                old(self).root_view(),
                id,
            ),
    {
        match Product::create(id, self.db_path.as_str(), entry) {
            Ok(p) => {
                self.index.add_product_id(id);
                Ok(p)
            },
            Err(e) => Err(e),
        }
    }

    /// The known identifiers in ascending order, as they stand now.
    pub fn product_ids(&self) -> (r: Vec<u32>)
        ensures
            r@ == self.index_view().ids(),
    {
        let ids = self.index.product_ids();
        let mut out: Vec<u32> = Vec::new();
        let mut i: usize = 0;
        while i < ids.len()
            invariant
                i <= ids@.len(),
                out@ == ids@.take(i as int),
            decreases ids.len() - i,
        {
            out.push(ids[i]);
            i = i + 1;
            assert(out@ =~= ids@.take(i as int));
        }
        assert(ids@.take(ids@.len() as int) =~= ids@);
        out
    }
}

/// Adding a product makes it known, so adding it again is a no-op: the second addition
/// finds it known and the known set stays as the first addition left it.
pub proof fn lemma_add_twice(known: Set<u32>, id: u32)
    ensures
        known.insert(id).contains(id),
        !adds_new(known.insert(id), id),
        known.insert(id).insert(id) == known.insert(id),
{
    assert(known.insert(id).insert(id) =~= known.insert(id));
}

} // verus!

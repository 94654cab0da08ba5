use grakawa::db::{check_open, index_path, lock_path, Db, DbError, LockOutcome};
use grakawa::text::path_in;
use grakawa::index::IndexData;
use grakawa::money::Euro;
use grakawa::product::{EntryKind, Prices, Product, ProductError};

fn open_empty(root: &str) -> Db {
    Db::new(root.to_string(), EntryKind::Directory, LockOutcome::Acquired, IndexData::empty()).ok().unwrap()
}

#[test]
fn product_directory_names_are_zero_padded() {
    let p = Product::create(123, "db", EntryKind::Missing).ok().unwrap();
    assert_eq!(p.id(), 123);
    assert_eq!(p.path(), "db/p0000000123");
    let q = Product::open(4294967295, "db", EntryKind::Directory).unwrap();
    assert_eq!(q.path(), "db/p4294967295");
    let r = Product::open(999999999, "db", EntryKind::Directory).unwrap();
    let s = Product::open(1000000000, "db", EntryKind::Directory).unwrap();
    assert_eq!(r.path().len(), s.path().len());
    assert!(r.path() < s.path());
    let z = Product::open(0, "r", EntryKind::Directory).unwrap();
    assert_eq!(z.path(), "r/p0000000000");
}

#[test]
fn product_path_taken_by_a_file() {
    assert_eq!(
        Product::create(1, "db", EntryKind::NotDirectory).err(),
        Some(ProductError::NotADirectory)
    );
    assert!(Product::open(1, "db", EntryKind::NotDirectory).is_none());
    assert!(Product::open(1, "db", EntryKind::Missing).is_none());
}

#[test]
fn file_paths_under_the_root() {
    assert_eq!(lock_path("db"), "db/.lock");
    assert_eq!(index_path("db"), "db/index.json");
    assert_eq!(path_in("a/b", "c"), "a/b/c");
}

#[test]
fn opening_a_locked_root_is_contention() {
    assert_eq!(check_open(EntryKind::Directory, LockOutcome::AlreadyLocked), Err(DbError::Locked));
    assert_eq!(check_open(EntryKind::Missing, LockOutcome::Acquired), Ok(()));
    assert_eq!(check_open(EntryKind::Directory, LockOutcome::Acquired), Ok(()));
    assert_eq!(
        check_open(EntryKind::NotDirectory, LockOutcome::Acquired),
        Err(DbError::RootNotADirectory)
    );
    assert_eq!(
        Db::new("db".to_string(), EntryKind::Directory, LockOutcome::AlreadyLocked, IndexData::empty())
            .err(),
        Some(DbError::Locked)
    );
    assert_eq!(
        Db::new("db".to_string(), EntryKind::NotDirectory, LockOutcome::Acquired, IndexData::empty())
            .err(),
        Some(DbError::RootNotADirectory)
    );
    assert!(
        Db::new("db".to_string(), EntryKind::Missing, LockOutcome::Acquired, IndexData::empty())
            .is_ok()
    );
}

#[test]
fn add_then_get_then_add_again() {
    let mut db = open_empty("db");
    let p = db.add_product(42, EntryKind::Missing).unwrap().unwrap();
    assert_eq!(p.id(), 42);
    assert_eq!(p.path(), "db/p0000000042");
    let g = db.get_product(42, EntryKind::Directory).unwrap();
    assert_eq!(g.id(), 42);
    assert!(db.add_product(42, EntryKind::Directory).unwrap().is_none());
    assert_eq!(db.product_ids(), vec![42]);
}

#[test]
fn add_over_a_file_fails_and_changes_nothing() {
    let mut db = open_empty("db");
    assert_eq!(db.add_product(9, EntryKind::NotDirectory).err(), Some(ProductError::NotADirectory));
    assert!(db.product_ids().is_empty());
}

#[test]
fn get_or_add_adds_only_missing_products() {
    let mut db = open_empty("db");
    let p = db.get_or_add_product(7, EntryKind::Missing).ok().unwrap();
    assert_eq!(p.path(), "db/p0000000007");
    assert_eq!(db.product_ids(), vec![7]);
    let q = db.get_or_add_product(8, EntryKind::Directory).ok().unwrap();
    assert_eq!(q.id(), 8);
    assert_eq!(db.product_ids(), vec![7, 8]);
    let again = db.get_or_add_product(7, EntryKind::Directory).ok().unwrap();
    assert_eq!(again.id(), 7);
    assert_eq!(db.product_ids(), vec![7, 8]);
    assert!(db.get_or_add_product(9, EntryKind::NotDirectory).is_err());
    assert_eq!(db.product_ids(), vec![7, 8]);
}

#[test]
fn reopened_store_lists_its_products() {
    let mut db = open_empty("db");
    db.add_product(123, EntryKind::Missing).unwrap().unwrap();
    let saved = db.index().product_ids().to_vec();
    let reloaded = IndexData::from_sorted(saved).unwrap();
    let db2 =
        Db::new("db".to_string(), EntryKind::Directory, LockOutcome::Acquired, reloaded).ok().unwrap();
    assert_eq!(db2.product_ids(), vec![123]);
    assert_eq!(db2.get_product(123, EntryKind::Directory).unwrap().id(), 123);
    assert_eq!(db2.root(), "db");
}

#[test]
fn price_series_hold_one_price_per_day() {
    assert_eq!(Prices::empty().len(), 0);
    let mut p = Prices::empty();
    p.insert(2, Euro::from_cents(725));
    p.insert(1, Euro::from_cents(710));
    assert_eq!(p.len(), 2);
    p.insert(2, Euro::from_cents(1));
    assert_eq!(p.len(), 2);
    assert_eq!(p.get(2).unwrap().cents(), 1);
}

#[test]
fn inserting_prices_keeps_days_ordered_and_unique() {
    let mut p = Prices::empty();
    p.insert(20, Euro::from_cents(725));
    p.insert(10, Euro::from_cents(710));
    p.insert(30, Euro::from_cents(1));
    assert_eq!(p.len(), 3);
    let days: Vec<i32> = p.prices.keys().cloned().collect();
    assert_eq!(days, vec![10, 20, 30]);
    p.insert(20, Euro::from_cents(999));
    assert_eq!(p.len(), 3);
    assert_eq!(p.get(20).unwrap().cents(), 999);
    assert_eq!(p.get(10).unwrap().cents(), 710);
}

#[test]
fn written_series_reads_back() {
    let mut p = Prices::empty();
    p.insert(738886, Euro::from_str("7.10").unwrap());
    p.insert(738887, Euro::from_str("7.25").unwrap());
    let mut copy = Prices::empty();
    for (day, price) in p.prices.iter() {
        copy.insert(*day, Euro::from_cents(price.cents()));
    }
    let texts: Vec<(i32, String)> =
        copy.prices.iter().map(|(d, e)| (*d, e.to_string())).collect();
    assert_eq!(texts, vec![(738886, "7.10".to_string()), (738887, "7.25".to_string())]);
}

#[test]
fn looking_up_prices_by_day() {
    let mut p = Prices::empty();
    assert!(p.get(5).is_none());
    p.insert(5, Euro::from_cents(710));
    p.insert(9, Euro::from_cents(725));
    assert_eq!(p.get(5).unwrap().cents(), 710);
    assert_eq!(p.get(9).unwrap().cents(), 725);
    assert!(p.get(7).is_none());
    p.insert(5, Euro::from_cents(1));
    assert_eq!(p.get(5).unwrap().cents(), 1);
}

use vstd::prelude::*;

verus! {

broadcast use {vstd::seq_lib::group_seq_properties, vstd::set_lib::group_set_lib_default};

/// Whether each identifier of `s` is smaller than the next: ascending, with no repeats.
pub open spec fn strictly_ascending(s: Seq<u32>) -> bool {
    forall|i: int, j: int| 0 <= i < j < s.len() ==> s[i] < s[j]
}

/// The identifiers known after adding `batch` to the known set `known`.
pub open spec fn with_batch(known: Set<u32>, batch: Seq<u32>) -> Set<u32> {
    known + batch.to_set()
}

/// How many distinct identifiers of `batch` are not in `known`.
pub open spec fn fresh_count(known: Set<u32>, batch: Seq<u32>) -> nat {
    batch.to_set().difference(known).len()
}

/// The set of known product identifiers, kept in ascending order without repeats.
pub struct IndexData {
    product_ids: Vec<u32>,
}

impl IndexData {
    /// The identifiers, in the order in which they are held.
    pub closed spec fn ids(&self) -> Seq<u32> {
        self.product_ids@
    }

    /// The identifiers as a set.
    pub open spec fn id_set(&self) -> Set<u32> {
        self.ids().to_set()
    }

    pub open spec fn wf(&self) -> bool {
        strictly_ascending(self.ids())
    }

    /// An index that knows no product.
    pub fn empty() -> (r: IndexData)
        ensures
            r.wf(),
            r.ids() == Seq::<u32>::empty(),
    {
        IndexData { product_ids: Vec::new() }
    }

    /// An index of the given identifiers, which must be ascending and without repeats.
    pub fn from_sorted(ids: Vec<u32>) -> (r: Option<IndexData>)
        ensures
            r is Some <==> strictly_ascending(ids@),
            r is Some ==> r->Some_0.ids() == ids@,
    {
        let mut i: usize = 1;
        if ids.len() == 0 {
            return Some(IndexData { product_ids: ids });
        }
        while i < ids.len()
            invariant
                1 <= i <= ids.len(),
                forall|a: int, b: int| 0 <= a < b < i ==> ids@[a] < ids@[b],
            decreases ids.len() - i,
        {
            if ids[i - 1] >= ids[i] {
                return None;
            }
            i = i + 1;
        }
        Some(IndexData { product_ids: ids })
    }

    /// The identifiers in ascending order.
    pub fn product_ids(&self) -> (r: &[u32])
        ensures
            r@ == self.ids(),
    {
        self.product_ids.as_slice()
    }

    /// The first place whose identifier is not smaller than `id`.
    fn position(&self, id: u32) -> (p: usize)
        requires
            self.wf(),
        ensures
            p <= self.ids().len(),
            forall|i: int| 0 <= i < p ==> self.ids()[i] < id,
            p < self.ids().len() ==> self.ids()[p as int] >= id,
    {
        let mut lo: usize = 0;
        let mut hi: usize = self.product_ids.len();
        while lo < hi
            invariant
                lo <= hi <= self.product_ids.len(),
                self.wf(),
                forall|i: int| 0 <= i < lo ==> self.ids()[i] < id,
                forall|i: int| hi <= i < self.ids().len() ==> self.ids()[i] >= id,
            decreases hi - lo,
        {
            let mid = lo + (hi - lo) / 2;
            if self.product_ids[mid] < id {
                lo = mid + 1;
            } else {
                hi = mid;
            }
        }
        lo
    }

    /// Whether `id` is known.
    pub fn contains(&self, id: u32) -> (r: bool)
        requires
            self.wf(),
        ensures
            r == self.id_set().contains(id),
    {
        let p = self.position(id);
        let r = p < self.product_ids.len() && self.product_ids[p] == id;
        proof {
            if !r {
                assert forall|i: int| 0 <= i < self.ids().len() implies self.ids()[i] != id by {
                    if i >= p {
                        assert(self.ids()[i] >= self.ids()[p as int]);
                    }
                }
            }
        }
        r
    }

    /// Adds `id`; says whether it was new. A known identifier leaves the index as it was.
    pub fn add_product_id(&mut self, id: u32) -> (r: bool)
        requires
            old(self).wf(),
        ensures
            final(self).wf(),
            r == !old(self).id_set().contains(id),
            final(self).id_set() == old(self).id_set().insert(id),
            final(self).ids().len() == old(self).ids().len() + if r { 1int } else { 0 },
            !r ==> final(self).ids() == old(self).ids(),
    {
        let p = self.position(id);
        if p < self.product_ids.len() && self.product_ids[p] == id {
            proof {
                assert(self.id_set().insert(id) =~= self.id_set());
            }
            return false;
        }
        proof {
            assert forall|i: int| 0 <= i < self.ids().len() implies self.ids()[i] != id by {
                if i >= p {
                    assert(self.ids()[i] >= self.ids()[p as int]);
                }
            }
        }
        let ghost before = self.ids();
        self.product_ids.insert(p, id);
        proof {
            assert(self.ids() == before.insert(p as int, id));
            assert forall|i: int, j: int| 0 <= i < j < self.ids().len() implies self.ids()[i]
                < self.ids()[j] by {
                if j < p {
                } else if j == p {
                } else if i < p {
                } else if i == p {
                    assert(before[p as int] >= id);
                    assert(before[j - 1] >= before[p as int]);
                } else {
                }
            }
            assert forall|x: u32| #[trigger]
                self.id_set().contains(x) <==> before.to_set().insert(id).contains(x) by {
                if before.contains(x) {
                    let k = choose|k: int| 0 <= k < before.len() && before[k] == x;
                    if k < p {
                        assert(self.ids()[k] == x);
                    } else {
                        assert(self.ids()[k + 1] == x);
                    }
                }
                if self.ids().contains(x) {
                    let k = choose|k: int| 0 <= k < self.ids().len() && self.ids()[k] == x;
                    if k < p {
                        assert(before[k] == x);
                    } else if k > p {
                        assert(before[k - 1] == x);
                    }
                }
            }
            assert(self.id_set() =~= before.to_set().insert(id));
        }
        true
    }

    /// Adds a batch of identifiers and returns how many of them were not known before.
    pub fn add_product_ids(&mut self, ids: &[u32]) -> (r: usize)
        requires
            old(self).wf(),
        ensures
            final(self).wf(),
            final(self).id_set() == with_batch(old(self).id_set(), ids@),
            r == fresh_count(old(self).id_set(), ids@),
    {
        let ghost start = self.id_set();
        let mut count: usize = 0;
        let mut i: usize = 0;
        proof {
            assert(ids@.take(0).to_set() =~= Set::<u32>::empty());
            assert(start + Set::<u32>::empty() =~= start);
            self.ids().unique_seq_to_set();
        }
        while i < ids.len()
            invariant
                i <= ids.len(),
                self.wf(),
                self.id_set() == start + ids@.take(i as int).to_set(),
                start.finite(),
                self.ids().len() == start.len() + count,
                count <= i,
            decreases ids.len() - i,
        {
            let added = self.add_product_id(ids[i]);
            proof {
                assert(ids@.take(i + 1) =~= ids@.take(i as int).push(ids@[i as int]));
                assert(ids@.take(i + 1).to_set() =~= ids@.take(i as int).to_set().insert(
                    ids@[i as int],
                ));
                assert(self.id_set() =~= start + ids@.take(i + 1).to_set());
            }
            if added {
                count = count + 1;
            }
            i = i + 1;
        }
        proof {
            assert(ids@.take(ids@.len() as int) =~= ids@);
            let fresh = ids@.to_set().difference(start);
            assert(start + fresh =~= self.id_set());
            self.ids().unique_seq_to_set();
            assert(start.disjoint(fresh));
            vstd::set_lib::lemma_set_disjoint_lens(start, fresh);
        }
        count
    }
}

/// Adding two disjoint batches to an empty index, one after the other, leaves it holding
/// exactly their union; each addition counts every distinct identifier of its batch.
pub proof fn lemma_disjoint_batches(a: Seq<u32>, b: Seq<u32>)
    requires
        a.to_set().disjoint(b.to_set()),
    ensures
        with_batch(with_batch(Set::empty(), a), b) == a.to_set() + b.to_set(),
        fresh_count(Set::empty(), a) == a.to_set().len(),
        fresh_count(with_batch(Set::empty(), a), b) == b.to_set().len(),
{
    let s1 = with_batch(Set::empty(), a);
    assert(s1 =~= a.to_set());
    assert(with_batch(s1, b) =~= a.to_set() + b.to_set());
    assert(a.to_set().difference(Set::empty()) =~= a.to_set());
    assert(b.to_set().difference(s1) =~= b.to_set());
}

} // verus!

//! Tables: values under numbers, in the order of the numbers.
use vstd::prelude::*;

verus! {

/// A number that a table is ordered by.
pub trait Key: Copy {
    spec fn rank_spec(self) -> i64;

    fn rank(self) -> (r: i64)
        ensures
            r == self.rank_spec(),
    ;

    /// Different keys have different ranks.
    proof fn lemma_rank_injective(a: Self, b: Self)
        requires
            a.rank_spec() == b.rank_spec(),
        ensures
            a == b,
    ;
}

impl Key for u32 {
    open spec fn rank_spec(self) -> i64 {
        self as i64
    }

    fn rank(self) -> (r: i64) {
        self as i64
    }

    proof fn lemma_rank_injective(a: u32, b: u32) {
    }
}

impl Key for i32 {
    open spec fn rank_spec(self) -> i64 {
        self as i64
    }

    fn rank(self) -> (r: i64) {
        self as i64
    }

    proof fn lemma_rank_injective(a: i32, b: i32) {
    }
}

/// Keys in rising order, none of them twice.
pub open spec fn ordered<K: Key, V>(s: Seq<(K, V)>) -> bool {
    forall|i: int, j: int|
        0 <= i < j < s.len() ==> (#[trigger] s[i]).0.rank_spec() < (#[trigger] s[j]).0.rank_spec()
}

/// How many keys stand before `k`.
pub open spec fn place<K: Key, V>(s: Seq<(K, V)>, k: K) -> nat
    decreases s.len(),
{
    if s.len() == 0 || k.rank_spec() <= s[0].0.rank_spec() {
        0
    } else {
        1 + place(s.skip(1), k)
    }
}

pub open spec fn holds<K: Key, V>(s: Seq<(K, V)>, k: K) -> bool {
    exists|i: int| 0 <= i < s.len() && (#[trigger] s[i]).0 == k
}

/// The value under `k`.
pub open spec fn lookup<K: Key, V>(s: Seq<(K, V)>, k: K) -> Option<V> {
    let p = place(s, k) as int;
    if p < s.len() && s[p].0 == k {
        Some(s[p].1)
    } else {
        None
    }
}

/// `s` with `v` under `k`, in place of what was there.
pub open spec fn inserted<K: Key, V>(s: Seq<(K, V)>, k: K, v: V) -> Seq<(K, V)> {
    let p = place(s, k) as int;
    if p < s.len() && s[p].0 == k {
        s.update(p, (k, v))
    } else {
        s.insert(p, (k, v))
    }
}

pub proof fn lemma_place<K: Key, V>(s: Seq<(K, V)>, k: K)
    requires
        ordered(s),
    ensures
        place(s, k) <= s.len(),
        forall|i: int|
            0 <= i < place(s, k) ==> (#[trigger] s[i]).0.rank_spec() < k.rank_spec(),
        forall|i: int|
            place(s, k) <= i < s.len() ==> k.rank_spec() <= (#[trigger] s[i]).0.rank_spec(),
    decreases s.len(),
{
    if s.len() > 0 && s[0].0.rank_spec() < k.rank_spec() {
        let t = s.skip(1);
        assert forall|i: int, j: int| 0 <= i < j < t.len() implies (#[trigger] t[i]).0.rank_spec()
            < (#[trigger] t[j]).0.rank_spec() by {
            assert(t[i] == s[i + 1] && t[j] == s[j + 1]);
        }
        lemma_place(t, k);
        assert forall|i: int| 0 <= i < place(s, k) implies (#[trigger] s[i]).0.rank_spec()
            < k.rank_spec() by {
            if i > 0 {
                assert(s[i] == t[i - 1]);
            }
        }
        assert forall|i: int| place(s, k) <= i < s.len() implies k.rank_spec() <= (
        #[trigger] s[i]).0.rank_spec() by {
            assert(s[i] == t[i - 1]);
        }
    }
}

/// The place of a key is the only position that parts the smaller keys from the others.
pub proof fn lemma_place_unique<K: Key, V>(s: Seq<(K, V)>, k: K, p: int)
    requires
        ordered(s),
        0 <= p <= s.len(),
        forall|i: int| 0 <= i < p ==> (#[trigger] s[i]).0.rank_spec() < k.rank_spec(),
        forall|i: int| p <= i < s.len() ==> k.rank_spec() <= (#[trigger] s[i]).0.rank_spec(),
    ensures
        place(s, k) == p,
{
    lemma_place(s, k);
    let q = place(s, k) as int;
    if q < p {
        assert(s[q].0.rank_spec() < k.rank_spec());
    } else if p < q {
        assert(s[p].0.rank_spec() < k.rank_spec());
    }
}

/// What `lookup` finds is what stands under the key.
pub proof fn lemma_lookup<K: Key, V>(s: Seq<(K, V)>, k: K)
    requires
        ordered(s),
    ensures
        lookup(s, k) is Some <==> holds(s, k),
        forall|i: int|
            0 <= i < s.len() && (#[trigger] s[i]).0 == k ==> lookup(s, k) == Some(s[i].1),
        lookup(s, k) matches Some(v) ==> exists|i: int|
            0 <= i < s.len() && #[trigger] s[i] == (k, v),
{
    lemma_place(s, k);
    let p = place(s, k) as int;
    assert forall|i: int| 0 <= i < s.len() && (#[trigger] s[i]).0 == k implies lookup(s, k) == Some(
        s[i].1,
    ) by {
        assert(p <= i);
        if p < i {
            assert(s[p].0.rank_spec() < s[i].0.rank_spec());
        }
    }
    if p < s.len() && s[p].0 == k {
        assert(s[p] == (k, s[p].1));
    }
}

/// The entries before the last one hold what the table holds under the other keys.
proof fn lemma_before_last<K: Key, V>(s: Seq<(K, V)>, k: K)
    requires
        ordered(s),
        s.len() > 0,
    ensures
        ordered(s.drop_last()),
        lookup(s.drop_last(), k) == if k == s.last().0 {
            None
        } else {
            lookup(s, k)
        },
{
    let t = s.drop_last();
    assert forall|i: int, j: int| 0 <= i < j < t.len() implies (#[trigger] t[i]).0.rank_spec()
        < (#[trigger] t[j]).0.rank_spec() by {
        assert(t[i] == s[i] && t[j] == s[j]);
    }
    lemma_lookup(s, k);
    lemma_lookup(t, k);
    if lookup(t, k) is Some {
        let i = choose|i: int| 0 <= i < t.len() && (#[trigger] t[i]).0 == k;
        assert(s[i] == t[i]);
        assert(s[i].0.rank_spec() < s[s.len() - 1].0.rank_spec());
    } else if k != s.last().0 && lookup(s, k) is Some {
        let i = choose|i: int| 0 <= i < s.len() && (#[trigger] s[i]).0 == k;
        assert(i < t.len());
        assert(t[i] == s[i]);
    }
}

/// Tables that hold the same are equal.
pub proof fn lemma_equal<K: Key, V>(a: Seq<(K, V)>, b: Seq<(K, V)>)
    requires
        ordered(a),
        ordered(b),
        forall|k: K| #[trigger] lookup(a, k) == lookup(b, k),
    ensures
        a == b,
    decreases a.len(),
{
    if a.len() == 0 {
        if b.len() > 0 {
            lemma_lookup(b, b[0].0);
            assert(lookup(a, b[0].0) == lookup(b, b[0].0));
        }
        assert(a =~= b);
    } else {
        let x = a[a.len() - 1].0;
        lemma_lookup(a, x);
        lemma_lookup(b, x);
        assert(lookup(a, x) == lookup(b, x));
        let j = choose|j: int| 0 <= j < b.len() && (#[trigger] b[j]).0 == x;
        let y = b[b.len() - 1].0;
        lemma_lookup(a, y);
        lemma_lookup(b, y);
        assert(lookup(a, y) == lookup(b, y));
        let i = choose|i: int| 0 <= i < a.len() && (#[trigger] a[i]).0 == y;
        if j < b.len() - 1 {
            assert(x.rank_spec() < y.rank_spec());
            assert(y.rank_spec() <= x.rank_spec());
        }
        assert(x == y);
        lemma_before_last(a, x);
        lemma_before_last(b, x);
        assert forall|k: K| #[trigger] lookup(a.drop_last(), k) == lookup(b.drop_last(), k) by {
            lemma_before_last(a, k);
            lemma_before_last(b, k);
            assert(lookup(a, k) == lookup(b, k));
        }
        lemma_equal(a.drop_last(), b.drop_last());
        assert(a =~= a.drop_last().push(a.last()));
        assert(b =~= b.drop_last().push(b.last()));
    }
}

pub proof fn lemma_inserted<K: Key, V>(s: Seq<(K, V)>, k: K, v: V)
    requires
        ordered(s),
    ensures
        ordered(inserted(s, k, v)),
        lookup(inserted(s, k, v), k) == Some(v),
        forall|q: K| q != k ==> #[trigger] lookup(inserted(s, k, v), q) == lookup(s, q),
{
    lemma_place(s, k);
    let p = place(s, k) as int;
    let t = inserted(s, k, v);
    if p < s.len() && s[p].0.rank_spec() == k.rank_spec() {
        K::lemma_rank_injective(s[p].0, k);
    }
    if p < s.len() && s[p].0 == k {
        assert forall|i: int, j: int| 0 <= i < j < t.len() implies (#[trigger] t[i]).0.rank_spec()
            < (#[trigger] t[j]).0.rank_spec() by {
            assert(t[i].0 == s[i].0 && t[j].0 == s[j].0);
        }
    } else {
        assert forall|i: int, j: int| 0 <= i < j < t.len() implies (#[trigger] t[i]).0.rank_spec()
            < (#[trigger] t[j]).0.rank_spec() by {
            let i0 = if i < p { i } else { i - 1 };
            let j0 = if j < p { j } else { j - 1 };
            if i != p && j != p {
                assert(t[i] == s[i0] && t[j] == s[j0]);
            } else if i == p {
                assert(t[j] == s[j0]);
                assert(s[p].0.rank_spec() <= s[j0].0.rank_spec());
            } else {
                assert(t[i] == s[i]);
            }
        }
    }
    assert(ordered(t));
    lemma_lookup(t, k);
    assert(t[p] == (k, v));
    assert forall|q: K| q != k implies #[trigger] lookup(t, q) == lookup(s, q) by {
        lemma_lookup(t, q);
        lemma_lookup(s, q);
        if lookup(s, q) is Some {
            let i = choose|i: int| 0 <= i < s.len() && #[trigger] s[i] == (q, lookup(s, q)->0);
            if t.len() == s.len() || i < p {
                assert(t[i] == s[i]);
            } else {
                assert(t[i + 1] == s[i]);
            }
        }
        if lookup(t, q) is Some {
            let i = choose|i: int| 0 <= i < t.len() && #[trigger] t[i] == (q, lookup(t, q)->0);
            if t.len() == s.len() || i < p {
                assert(t[i] == s[i]);
            } else {
                assert(t[i] == s[i - 1]);
            }
        }
    }
}

pub open spec fn mapped<K, V, W>(s: Seq<(K, V)>, f: spec_fn(V) -> W) -> Seq<(K, W)> {
    s.map_values(|e: (K, V)| (e.0, f(e.1)))
}

/// A change of the values leaves the keys where they are.
pub proof fn lemma_mapped<K: Key, V, W>(s: Seq<(K, V)>, f: spec_fn(V) -> W, k: K)
    ensures
        ordered(s) == ordered(mapped(s, f)),
        place(mapped(s, f), k) == place(s, k),
        lookup(s, k) is Some <==> lookup(mapped(s, f), k) is Some,
        lookup(s, k) matches Some(v) ==> lookup(mapped(s, f), k) == Some(f(v)),
        place(s, k) <= s.len() ==> forall|v: V|
            #[trigger] mapped(inserted(s, k, v), f) == inserted(mapped(s, f), k, f(v)),
    decreases s.len(),
{
    let t = mapped(s, f);
    assert forall|i: int| 0 <= i < s.len() implies (#[trigger] t[i]) == (s[i].0, f(s[i].1)) by {}
    if ordered(s) {
        assert forall|i: int, j: int| 0 <= i < j < t.len() implies (#[trigger] t[i]).0.rank_spec()
            < (#[trigger] t[j]).0.rank_spec() by {
            assert(s[i].0.rank_spec() < s[j].0.rank_spec());
        }
    }
    if ordered(t) {
        assert forall|i: int, j: int| 0 <= i < j < s.len() implies (#[trigger] s[i]).0.rank_spec()
            < (#[trigger] s[j]).0.rank_spec() by {
            assert(t[i].0.rank_spec() < t[j].0.rank_spec());
        }
    }
    if s.len() > 0 {
        lemma_mapped(s.skip(1), f, k);
        assert(mapped(s.skip(1), f) =~= t.skip(1));
    }
    if place(s, k) <= s.len() {
        assert forall|v: V| #[trigger] mapped(inserted(s, k, v), f) == inserted(t, k, f(v)) by {
            assert(mapped(inserted(s, k, v), f) =~= inserted(t, k, f(v)));
        }
    }
}

/// There is a value under the number of rank `r`.
pub open spec fn taken<K: Key, V>(s: Seq<(K, V)>, r: int) -> bool {
    exists|i: int| 0 <= i < s.len() && (#[trigger] s[i]).0.rank_spec() == r
}

/// `r` is free, and every rank from `base` to `r` is taken.
pub open spec fn is_lowest_free<K: Key, V>(s: Seq<(K, V)>, base: int, r: int) -> bool {
    &&& base <= r
    &&& !taken(s, r)
    &&& forall|j: int| base <= j < r ==> #[trigger] taken(s, j)
}

/// The lowest free rank from `base` on.
pub open spec fn lowest_free<K: Key, V>(s: Seq<(K, V)>, base: int) -> int {
    choose|r: int| is_lowest_free(s, base, r)
}

pub proof fn lemma_lowest_free<K: Key, V>(s: Seq<(K, V)>, base: int, r: int)
    requires
        is_lowest_free(s, base, r),
    ensures
        lowest_free(s, base) == r,
{
    let f = lowest_free(s, base);
    if f < r {
        assert(taken(s, f));
    } else if r < f {
        assert(taken(s, r));
    }
}

/// Among the ranks from `base` on, as many as there are values and one more, one is free.
pub proof fn lemma_free_exists<K: Key, V>(s: Seq<(K, V)>, base: int)
    requires
        ordered(s),
    ensures
        is_lowest_free(s, base, lowest_free(s, base)),
        base <= lowest_free(s, base) <= base + s.len(),
{
    let r = lemma_scan(s, base, 0, base);
    lemma_lowest_free(s, base, r);
}

/// Finds the lowest free rank behind the first `i` values, which take the ranks up to `r`.
proof fn lemma_scan<K: Key, V>(s: Seq<(K, V)>, base: int, i: int, r: int) -> (f: int)
    requires
        ordered(s),
        0 <= i <= s.len(),
        base <= r <= base + i,
        forall|j: int| base <= j < r ==> #[trigger] taken(s, j),
        forall|k: int| 0 <= k < i ==> (#[trigger] s[k]).0.rank_spec() < r,
    ensures
        is_lowest_free(s, base, f),
        f <= base + s.len(),
    decreases s.len() - i,
{
    if i == s.len() || s[i].0.rank_spec() > r {
        assert(!taken(s, r)) by {
            if taken(s, r) {
                let k = choose|k: int| 0 <= k < s.len() && (#[trigger] s[k]).0.rank_spec() == r;
                if k > i {
                    assert(s[i].0.rank_spec() < s[k].0.rank_spec());
                }
            }
        }
        r
    } else if s[i].0.rank_spec() == r {
        assert(taken(s, r));
        lemma_scan(s, base, i + 1, r + 1)
    } else {
        lemma_scan(s, base, i + 1, r)
    }
}

/// A rank is taken exactly if there is a value under its key.
pub proof fn lemma_taken<K: Key, V>(s: Seq<(K, V)>, k: K)
    requires
        ordered(s),
    ensures
        taken(s, k.rank_spec() as int) <==> lookup(s, k) is Some,
{
    lemma_lookup(s, k);
    if taken(s, k.rank_spec() as int) {
        let i = choose|i: int|
            0 <= i < s.len() && (#[trigger] s[i]).0.rank_spec() == k.rank_spec() as int;
        K::lemma_rank_injective(s[i].0, k);
    }
}

/// A change of the values leaves the free ranks free.
pub proof fn lemma_mapped_free<K: Key, V, W>(s: Seq<(K, V)>, f: spec_fn(V) -> W, base: int)
    requires
        ordered(s),
    ensures
        lowest_free(mapped(s, f), base) == lowest_free(s, base),
{
    let t = mapped(s, f);
    assert forall|r: int| #[trigger] taken(t, r) == taken(s, r) by {
        if taken(s, r) {
            let i = choose|i: int| 0 <= i < s.len() && (#[trigger] s[i]).0.rank_spec() == r;
            assert(t[i].0.rank_spec() == r);
        }
        if taken(t, r) {
            let i = choose|i: int| 0 <= i < t.len() && (#[trigger] t[i]).0.rank_spec() == r;
            assert(s[i].0.rank_spec() == r);
        }
    }
    lemma_free_exists(s, base);
    let r = lowest_free(s, base);
    assert(is_lowest_free(t, base, r));
    lemma_lowest_free(t, base, r);
}

/// Values under numbers. Each number has at most one value; they are kept in the order of the
/// numbers.
pub struct Table<K: Key, V> {
    entries: Vec<(K, V)>,
}

impl<K: Key, V> View for Table<K, V> {
    type V = Seq<(K, V)>;

    closed spec fn view(&self) -> Seq<(K, V)> {
        self.entries@
    }
}

impl<K: Key, V> Table<K, V> {
    #[verifier::type_invariant]
    spec fn in_order(self) -> bool {
        ordered(self.entries@)
    }

    /// A table with nothing in it.
    pub fn new() -> (r: Self)
        ensures
            r@ == Seq::<(K, V)>::empty(),
            ordered(r@),
    {
        Table { entries: Vec::new() }
    }

    pub fn len(&self) -> (r: usize)
        ensures
            r == self@.len(),
            ordered(self@),
    {
        proof {
            use_type_invariant(self);
        }
        self.entries.len()
    }

    /// The number at position `i`.
    pub fn key_at(&self, i: usize) -> (r: K)
        requires
            i < self@.len(),
        ensures
            r == self@[i as int].0,
    {
        self.entries[i].0
    }

    /// The value at position `i`.
    pub fn value_at(&self, i: usize) -> (r: &V)
        requires
            i < self@.len(),
        ensures
            *r == self@[i as int].1,
    {
        &self.entries[i].1
    }

    /// How many numbers stand before `k`.
    fn find(&self, k: K) -> (p: usize)
        ensures
            p == place(self@, k),
            ordered(self@),
            p <= self@.len(),
    {
        proof {
            use_type_invariant(self);
        }
        let mut p: usize = 0;
        while p < self.entries.len() && self.entries[p].0.rank() < k.rank()
            invariant
                p <= self.entries@.len(),
                forall|i: int|
                    0 <= i < p ==> (#[trigger] self.entries@[i]).0.rank_spec() < k.rank_spec(),
            decreases self.entries@.len() - p,
        {
            p = p + 1;
        }
        proof {
            assert forall|i: int| p <= i < self@.len() implies k.rank_spec() <= (
            #[trigger] self@[i]).0.rank_spec() by {
                if i > p {
                    assert(self@[p as int].0.rank_spec() < self@[i].0.rank_spec());
                }
            }
            lemma_place_unique(self@, k, p as int);
        }
        p
    }

    /// The value under `k`.
    pub fn get(&self, k: K) -> (r: Option<&V>)
        ensures
            ordered(self@),
            r is Some <==> lookup(self@, k) is Some,
            r matches Some(v) ==> lookup(self@, k) == Some(*v),
    {
        let p: usize = self.find(k);
        if p < self.entries.len() && self.entries[p].0.rank() == k.rank() {
            proof {
                K::lemma_rank_injective(self.entries@[p as int].0, k);
            }
            Some(&self.entries[p].1)
        } else {
            None
        }
    }

    /// Whether there is a value under `k`.
    pub fn contains_key(&self, k: K) -> (r: bool)
        ensures
            ordered(self@),
            r == (lookup(self@, k) is Some),
    {
        self.get(k).is_some()
    }

    /// The lowest free rank from `base` on.
    pub fn lowest_free(&self, base: i64) -> (r: i64)
        requires
            base + self@.len() <= i64::MAX,
        ensures
            r == lowest_free(self@, base as int),
            is_lowest_free(self@, base as int, r as int),
            r <= base + self@.len(),
    {
        proof {
            use_type_invariant(self);
        }
        let mut r: i64 = base;
        let mut i: usize = 0;
        while i < self.entries.len() && self.entries[i].0.rank() <= r
            invariant
                i <= self.entries@.len(),
                base <= r <= base + i,
                base + self.entries@.len() <= i64::MAX,
                forall|j: int| base <= j < r ==> #[trigger] taken(self.entries@, j),
                forall|k: int| 0 <= k < i ==> (#[trigger] self.entries@[k]).0.rank_spec() < r,
            decreases self.entries@.len() - i,
        {
            if self.entries[i].0.rank() == r {
                assert(taken(self.entries@, r as int));
                r = r + 1;
            }
            i = i + 1;
        }
        proof {
            let f = lemma_scan(self@, base as int, i as int, r as int);
            assert(!taken(self@, r as int)) by {
                if taken(self@, r as int) {
                    let k = choose|k: int|
                        0 <= k < self@.len() && (#[trigger] self@[k]).0.rank_spec() == r;
                    if k > i {
                        assert(self@[i as int].0.rank_spec() < self@[k].0.rank_spec());
                    }
                }
            }
            lemma_lowest_free(self@, base as int, r as int);
        }
        r
    }

    /// Puts `v` under `k`, in place of what was there.
    pub fn insert(&mut self, k: K, v: V)
        ensures
            ordered(old(self)@),
            ordered(final(self)@),
            final(self)@ == inserted(old(self)@, k, v),
    {
        let p: usize = self.find(k);
        let ghost before = self@;
        proof {
            lemma_inserted(before, k, v);
        }
        let present = p < self.entries.len() && self.entries[p].0.rank() == k.rank();
        let mut entries: Vec<(K, V)> = Vec::new();
        std::mem::swap(&mut entries, &mut self.entries);
        if present {
            proof {
                K::lemma_rank_injective(entries@[p as int].0, k);
            }
            entries.set(p, (k, v));
        } else {
            entries.insert(p, (k, v));
        }
        self.entries = entries;
    }
}

impl<K: Key, V> Table<K, V> {
    /// The table with a function applied to each value.
    pub fn map<W, F: Fn(&V) -> W>(&self, f: F) -> (r: Table<K, W>)
        requires
            forall|i: int|
                0 <= i < self@.len() ==> call_requires(f, (&(#[trigger] self@[i]).1,)),
        ensures
            ordered(self@),
            ordered(r@),
            r@.len() == self@.len(),
            forall|i: int|
                0 <= i < self@.len() ==> (#[trigger] r@[i]).0 == self@[i].0 && call_ensures(
                    f,
                    (&self@[i].1,),
                    r@[i].1,
                ),
    {
        proof {
            use_type_invariant(self);
        }
        let mut entries: Vec<(K, W)> = Vec::new();
        let mut i: usize = 0;
        while i < self.entries.len()
            invariant
                i <= self.entries@.len(),
                entries@.len() == i,
                forall|k: int|
                    0 <= k < self@.len() ==> call_requires(f, (&(#[trigger] self@[k]).1,)),
                forall|k: int|
                    0 <= k < i ==> (#[trigger] entries@[k]).0 == self.entries@[k].0
                        && call_ensures(f, (&self.entries@[k].1,), entries@[k].1),
            decreases self.entries@.len() - i,
        {
            assert(call_requires(f, (&self@[i as int].1,)));
            let w = f(&self.entries[i].1);
            entries.push((self.entries[i].0, w));
            i = i + 1;
        }
        proof {
            assert forall|a: int, b: int| 0 <= a < b < entries@.len() implies (
            #[trigger] entries@[a]).0.rank_spec() < (#[trigger] entries@[b]).0.rank_spec() by {
                assert(self.entries@[a].0.rank_spec() < self.entries@[b].0.rank_spec());
            }
        }
        Table { entries }
    }
}

impl<K: Key, V: Copy> Table<K, V> {
    /// The same table once more.
    pub fn copied(&self) -> (r: Self)
        ensures
            r@ == self@,
            ordered(r@),
    {
        proof {
            use_type_invariant(self);
        }
        let mut entries: Vec<(K, V)> = Vec::new();
        let mut i: usize = 0;
        while i < self.entries.len()
            invariant
                i <= self.entries@.len(),
                entries@ == self.entries@.take(i as int),
            decreases self.entries@.len() - i,
        {
            entries.push((self.entries[i].0, self.entries[i].1));
            i = i + 1;
            assert(entries@ =~= self.entries@.take(i as int));
        }
        assert(entries@ =~= self.entries@);
        Table { entries }
    }
}

} // verus!

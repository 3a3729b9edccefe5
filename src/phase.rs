use vstd::prelude::*;

verus! {

/// A drawable unit that a render phase orders by its sort key.
pub trait PhaseItem: Sized {
    /// The key that the phase sorts by.
    spec fn key(&self) -> u32;

    fn sort_key(&self) -> (r: u32)
        ensures
            r == self.key(),
    ;
}

/// The keys of `s` never decrease.
pub open spec fn keys_sorted<I: PhaseItem>(s: Seq<I>) -> bool {
    forall|i: int, j: int| 0 <= i < j < s.len() ==> s[i].key() <= s[j].key()
}

/// `p` shows that `r` is a stable reordering of `s`: position `k` of `r` holds item `p[k]`
/// of `s`, every item of `s` is taken once, and items with equal keys keep their order.
pub open spec fn stable_witness<I: PhaseItem>(s: Seq<I>, r: Seq<I>, p: Seq<int>) -> bool {
    &&& p.len() == s.len()
    &&& r.len() == s.len()
    &&& forall|k: int| 0 <= k < p.len() ==> 0 <= #[trigger] p[k] < s.len() && r[k] == s[p[k]]
    &&& forall|a: int, b: int| 0 <= a < b < p.len() ==> p[a] != p[b]
    &&& forall|a: int, b: int|
        0 <= a < b < p.len() && r[a].key() == r[b].key() ==> p[a] < p[b]
}

/// `r` is `s` sorted by key, ties kept in their order of `s`.
pub open spec fn is_stable_sort_of<I: PhaseItem>(s: Seq<I>, r: Seq<I>) -> bool {
    keys_sorted(r) && exists|p: Seq<int>| stable_witness(s, r, p)
}

/// The per-frame collection of draw items of one kind.
pub struct RenderPhase<I> {
    pub items: Vec<I>,
}

impl<I: PhaseItem> RenderPhase<I> {
    pub fn new() -> (r: Self)
        ensures
            r.items@ == Seq::<I>::empty(),
    {
        RenderPhase { items: Vec::new() }
    }

    /// Appends one item in extraction order.
    pub fn add(&mut self, item: I)
        ensures
            final(self).items@ == old(self).items@.push(item),
    {
        self.items.push(item);
    }

    pub fn len(&self) -> (r: usize)
        ensures
            r == self.items@.len(),
    {
        self.items.len()
    }

    /// Empties the phase in place, ready for the next frame.
    pub fn clear(&mut self)
        ensures
            final(self).items@ == Seq::<I>::empty(),
    {
        self.items.clear();
    }

    /// Sorts the items by key in ascending order; items with equal keys keep their
    /// extraction order.
    pub fn sort(&mut self)
        ensures
            is_stable_sort_of(old(self).items@, final(self).items@),
    {
        let ghost s = self.items@;
        let n = self.items.len();
        let ghost mut p: Seq<int> = Seq::new(n as nat, |k: int| k);
        let mut i: usize = 0;
        while i < n
            invariant
                0 <= i <= n,
                n == s.len(),
                self.items@.len() == n,
                p.len() == n,
                keys_sorted(self.items@.subrange(0, i as int)),
                forall|k: int| i <= k < n ==> #[trigger] p[k] == k,
                forall|k: int| 0 <= k < i ==> 0 <= #[trigger] p[k] < i,
                forall|k: int| 0 <= k < n ==> self.items@[k] == s[#[trigger] p[k]],
                forall|a: int, b: int| 0 <= a < b < n ==> p[a] != p[b],
                forall|a: int, b: int|
                    0 <= a < b < i && self.items@[a].key() == self.items@[b].key() ==> p[a]
                        < p[b],
            decreases n - i,
        {
            let ghost before = self.items@;
            let x = self.items.remove(i);
            let k = x.sort_key();
            let mut j: usize = i;
            while j > 0
                invariant
                    0 <= j <= i < n,
                    before.len() == n,
                    self.items@ == before.remove(i as int),
                    forall|m: int| j <= m < i ==> #[trigger] self.items@[m].key() > k,
                ensures
                    0 <= j <= i,
                    forall|m: int| j <= m < i ==> #[trigger] self.items@[m].key() > k,
                    j > 0 ==> self.items@[j - 1].key() <= k,
                decreases j,
            {
                if self.items[j - 1].sort_key() <= k {
                    break;
                }
                j = j - 1;
            }
            assert(forall|m: int| 0 <= m < i ==> #[trigger] before[m] == before.subrange(0, i as int)[m]);
            assert(forall|m: int| 0 <= m < i ==> #[trigger] self.items@[m] == before[m]);
            assert(forall|m: int| 0 <= m < j ==> #[trigger] before[m].key() <= k);
            self.items.insert(j, x);
            proof {
                let old_p = p;
                p = old_p.subrange(0, j as int).push(i as int) + old_p.subrange(
                    j as int,
                    i as int,
                ) + old_p.subrange(i + 1, n as int);
                assert(forall|m: int| 0 <= m < j ==> #[trigger] p[m] == old_p[m]);
                assert(p[j as int] == i);
                assert(forall|m: int| j < m <= i ==> #[trigger] p[m] == old_p[m - 1]);
                assert(forall|m: int| i < m < n ==> #[trigger] p[m] == old_p[m]);
                assert(forall|m: int| 0 <= m < j ==> #[trigger] self.items@[m] == before[m]);
                assert(forall|m: int| j < m <= i ==> #[trigger] self.items@[m] == before[m - 1]);
                assert(forall|m: int| i < m < n ==> #[trigger] self.items@[m] == before[m]);
                assert(self.items@[j as int] == before[i as int]);
                assert(keys_sorted(self.items@.subrange(0, i + 1)));
                assert forall|m: int| 0 <= m < n implies self.items@[m] == s[#[trigger] p[m]] by {
                    if j < m <= i {
                        assert(before[m - 1] == s[old_p[m - 1]]);
                    } else if m != j {
                        assert(before[m] == s[old_p[m]]);
                    } else {
                        assert(before[i as int] == s[old_p[i as int]]);
                    }
                }
            }
            i = i + 1;
        }
        proof {
            assert(self.items@.subrange(0, n as int) == self.items@);
            assert(stable_witness(s, self.items@, p));
        }
    }
}

} // verus!

use vstd::prelude::*;
use std::collections::VecDeque;

verus! {

/// How many samples a container's metric history keeps.
pub const METRICS_HISTORY_SIZE: usize = 150;

/// The last `n` elements of `s` (all of `s` when it is not longer than `n`).
pub open spec fn keep_last<T>(s: Seq<T>, n: nat) -> Seq<T> {
    if s.len() <= n {
        s
    } else {
        s.subrange(s.len() - n, s.len() as int)
    }
}

/// A sliding window over the most recent samples of a metric: once it holds
/// `METRICS_HISTORY_SIZE` samples, adding one drops the oldest.
pub struct MetricsHistory<T: Copy> {
    data: VecDeque<T>,
}

impl<T: Copy> View for MetricsHistory<T> {
    type V = Seq<T>;

    /// The samples, oldest first.
    closed spec fn view(&self) -> Seq<T> {
        self.data@
    }
}

impl<T: Copy> MetricsHistory<T> {
    #[verifier::type_invariant]
    spec fn within_capacity(self) -> bool {
        self.data@.len() <= METRICS_HISTORY_SIZE
    }

    pub fn new() -> (h: Self)
        ensures
            h@ == Seq::<T>::empty(),
    {
        MetricsHistory { data: VecDeque::new() }
    }

    /// Appends a sample, dropping the oldest ones beyond the window.
    pub fn add(&mut self, value: T)
        ensures
            final(self)@ == keep_last(old(self)@.push(value), METRICS_HISTORY_SIZE as nat),
    {
        proof {
            use_type_invariant(&*self);
        }
        let ghost old_data = self.data@;
        let mut data = VecDeque::new();
        std::mem::swap(&mut data, &mut self.data);
        while data.len() >= METRICS_HISTORY_SIZE
            invariant
                data@.len() <= METRICS_HISTORY_SIZE,
                old_data.len() <= METRICS_HISTORY_SIZE,
                data@.len() <= old_data.len(),
                old_data.len() < METRICS_HISTORY_SIZE ==> data@.len() == old_data.len(),
                old_data.len() == METRICS_HISTORY_SIZE ==> data@.len() + 1 >= METRICS_HISTORY_SIZE,
                data@ == old_data.subrange(old_data.len() - data@.len(), old_data.len() as int),
            decreases data@.len(),
        {
            let ghost before = data@;
            data.pop_front();
            assert(data@ =~= old_data.subrange(old_data.len() - data@.len(), old_data.len() as int));
        }
        let ghost kept = data@;
        data.push_back(value);
        proof {
            let s = old_data.push(value);
            assert(data@ == kept.push(value));
            if s.len() <= METRICS_HISTORY_SIZE {
                assert(kept =~= old_data);
                assert(data@ =~= s);
            } else {
                assert(data@ =~= s.subrange(s.len() - METRICS_HISTORY_SIZE, s.len() as int));
            }
        }
        self.data = data;
    }

    /// The samples, oldest first; never more than `METRICS_HISTORY_SIZE`.
    pub fn get_snapshot(&self) -> (r: Vec<T>)
        ensures
            r@ == self@,
            r@.len() <= METRICS_HISTORY_SIZE,
    {
        proof {
            use_type_invariant(self);
        }
        let mut result: Vec<T> = Vec::with_capacity(self.data.len());
        let mut i: usize = 0;
        while i < self.data.len()
            invariant
                i <= self.data@.len(),
                result@ == self.data@.take(i as int),
            decreases self.data@.len() - i,
        {
            let itm: T = self.data[i];
            result.push(itm);
            assert(self.data@.take(i as int).push(self.data@[i as int]) =~= self.data@.take(i + 1));
            i = i + 1;
        }
        assert(self.data@.take(self.data@.len() as int) =~= self.data@);
        result
    }
}

impl<T: Copy> Clone for MetricsHistory<T> {
    fn clone(&self) -> (r: Self)
        ensures
            r@ == self@,
    {
        proof {
            use_type_invariant(self);
        }
        let mut data: VecDeque<T> = VecDeque::new();
        let mut i: usize = 0;
        while i < self.data.len()
            invariant
                i <= self.data@.len(),
                self.data@.len() <= METRICS_HISTORY_SIZE,
                data@ == self.data@.take(i as int),
            decreases self.data@.len() - i,
        {
            let itm: T = self.data[i];
            data.push_back(itm);
            assert(self.data@.take(i as int).push(self.data@[i as int]) =~= self.data@.take(i + 1));
            i = i + 1;
        }
        assert(self.data@.take(self.data@.len() as int) =~= self.data@);
        MetricsHistory { data }
    }
}

/// A sliding window over the most recent `max_amount` values.
pub struct HistoryCache<T: Clone> {
    data: VecDeque<T>,
    max_amount: usize,
}

impl<T: Clone> View for HistoryCache<T> {
    type V = Seq<T>;

    /// The values, oldest first.
    closed spec fn view(&self) -> Seq<T> {
        self.data@
    }
}

impl<T: Clone> HistoryCache<T> {
    #[verifier::type_invariant]
    spec fn within_capacity(self) -> bool {
        self.data@.len() <= self.max_amount
    }

    /// The largest number of values the window holds.
    pub closed spec fn capacity(&self) -> nat {
        self.max_amount as nat
    }

    pub fn new(max_amount: usize) -> (h: Self)
        ensures
            h@ == Seq::<T>::empty(),
            h.capacity() == max_amount,
    {
        HistoryCache { data: VecDeque::new(), max_amount }
    }

    /// Appends a value, dropping the oldest ones beyond the window.
    /// A window of capacity 0 never makes room, so it takes no value.
    pub fn add(&mut self, value: T)
        requires
            old(self).capacity() > 0,
        ensures
            final(self).capacity() == old(self).capacity(),
            final(self)@ == keep_last(old(self)@.push(value), old(self).capacity()),
    {
        proof {
            use_type_invariant(&*self);
        }
        let ghost old_data = self.data@;
        let max_amount = self.max_amount;
        let mut data = VecDeque::new();
        std::mem::swap(&mut data, &mut self.data);
        while data.len() >= max_amount
            invariant
                0 < max_amount,
                data@.len() <= max_amount,
                old_data.len() <= max_amount,
                data@.len() <= old_data.len(),
                old_data.len() < max_amount ==> data@.len() == old_data.len(),
                old_data.len() == max_amount ==> data@.len() + 1 >= max_amount,
                data@ == old_data.subrange(old_data.len() - data@.len(), old_data.len() as int),
            decreases data@.len(),
        {
            let ghost before = data@;
            data.pop_front();
            assert(data@ =~= old_data.subrange(old_data.len() - data@.len(), old_data.len() as int));
        }
        let ghost kept = data@;
        data.push_back(value);
        proof {
            let s = old_data.push(value);
            assert(data@ == kept.push(value));
            if s.len() <= max_amount {
                assert(kept =~= old_data);
                assert(data@ =~= s);
            } else {
                assert(data@ =~= s.subrange(s.len() - max_amount, s.len() as int));
            }
        }
        self.data = data;
    }

    /// The values, oldest first; each one a clone of the stored value.
    pub fn get_snapshot(&self) -> (r: Vec<T>)
        ensures
            r@.len() == self@.len(),
            r@.len() <= self.capacity(),
            forall|i: int| 0 <= i < self@.len() ==> cloned::<T>(self@[i], #[trigger] r@[i]),
    {
        proof {
            use_type_invariant(self);
        }
        let mut result: Vec<T> = Vec::with_capacity(self.data.len());
        let mut i: usize = 0;
        while i < self.data.len()
            invariant
                i <= self.data@.len(),
                result@.len() == i,
                forall|j: int| 0 <= j < i ==> cloned::<T>(self.data@[j], #[trigger] result@[j]),
            decreases self.data@.len() - i,
        {
            result.push(self.data[i].clone());
            i = i + 1;
        }
        result
    }
}

/// Adding a sample to a window of at most `n` samples: the window grows by
/// one until it holds `n`, its newest sample is the one added, and the
/// samples before it are the newest `n - 1` of the earlier ones.
pub proof fn lemma_window_after_add<T>(s: Seq<T>, v: T, n: nat)
    requires
        0 < n,
        s.len() <= n,
    ensures
        keep_last(s.push(v), n).len() == if s.len() < n {
            s.len() + 1
        } else {
            n
        },
        keep_last(s.push(v), n).last() == v,
        keep_last(s.push(v), n).drop_last() == keep_last(s, (n - 1) as nat),
{
    let w = keep_last(s.push(v), n);
    if s.len() < n {
        assert(w.drop_last() =~= s);
    } else {
        assert(w.drop_last() =~= s.subrange(s.len() - (n - 1), s.len() as int));
    }
}

/// The window after adding the values of `xs` one by one, first to last, to
/// the window `s` of `n` values.
pub open spec fn add_all<T>(s: Seq<T>, xs: Seq<T>, n: nat) -> Seq<T>
    decreases xs.len(),
{
    if xs.len() == 0 {
        s
    } else {
        add_all(keep_last(s.push(xs[0]), n), xs.drop_first(), n)
    }
}

/// Keeping the last `n` values before appending more and keeping the last `n`
/// again keeps the same values as keeping them once at the end.
proof fn lemma_keep_last_absorbs<T>(a: Seq<T>, b: Seq<T>, n: nat)
    ensures
        keep_last(keep_last(a, n) + b, n) == keep_last(a + b, n),
{
    if a.len() > n {
        let k = keep_last(a, n);
        let lhs = keep_last(k + b, n);
        let rhs = keep_last(a + b, n);
        assert(lhs.len() == rhs.len());
        assert forall|i: int| 0 <= i < lhs.len() implies lhs[i] == rhs[i] by {
            let off_l = (k + b).len() - lhs.len();
            let off_r = (a + b).len() - rhs.len();
            if off_l + i < k.len() {
                assert((k + b)[off_l + i] == k[off_l + i]);
                assert(k[off_l + i] == a[a.len() - n + off_l + i]);
                assert((a + b)[off_r + i] == a[off_r + i]);
            } else {
                assert((k + b)[off_l + i] == b[off_l + i - k.len()]);
                assert((a + b)[off_r + i] == b[off_r + i - a.len()]);
            }
        }
        assert(lhs =~= rhs);
    }
}

/// Adding values one by one to a window that holds at most `n` values leaves
/// the last `n` values of everything it held and was given, oldest first; so
/// a window that starts empty and is given `x_1, ..., x_k` holds the last
/// `min(n, k)` of them.
pub proof fn lemma_window_after_adds<T>(s: Seq<T>, xs: Seq<T>, n: nat)
    requires
        s.len() <= n,
    ensures
        add_all(s, xs, n) == keep_last(s + xs, n),
    decreases xs.len(),
{
    if xs.len() == 0 {
        assert(s + xs =~= s);
    } else {
        lemma_window_after_adds(keep_last(s.push(xs[0]), n), xs.drop_first(), n);
        lemma_keep_last_absorbs(s.push(xs[0]), xs.drop_first(), n);
        assert(s.push(xs[0]) + xs.drop_first() =~= s + xs);
    }
}

} // verus!

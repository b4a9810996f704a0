use crate::date::Date;
use crate::slot::Slot;
use crate::slot::lemma_slot_order_total;
use crate::slot::spec_slot_chars;
use crate::text::format_slots;
use vstd::multiset::Multiset;
use vstd::prelude::*;

verus! {

/// Whether `s` is in strictly ascending slot order (by date, then period).
pub open spec fn strictly_sorted(s: Seq<Slot>) -> bool {
    forall|p: int, q: int| 0 <= p < q < s.len() ==> s[p].lt(s[q])
}

/// The one sequence that lists the slots of `a` in ascending order.
pub open spec fn spec_sorted_listing(a: Set<Slot>) -> Seq<Slot> {
    choose|s: Seq<Slot>| s.to_set() == a && strictly_sorted(s)
}

/// A set of slots has at most one strictly sorted listing.
pub proof fn lemma_sorted_listing_unique(x: Seq<Slot>, y: Seq<Slot>)
    requires
        strictly_sorted(x),
        strictly_sorted(y),
        x.to_set() == y.to_set(),
    ensures
        x == y,
    decreases x.len(),
{
    if x.len() == 0 {
        if y.len() > 0 {
            assert(y.contains(y[0]));
            assert(x.to_set().contains(y[0]));
            assert(false);
        }
        assert(x =~= y);
    } else {
        assert(x.contains(x[0]));
        assert(y.to_set().contains(x[0]));
        let j = choose|j: int| 0 <= j < y.len() && y[j] == x[0];
        assert(y.contains(y[0]));
        assert(x.to_set().contains(y[0]));
        let k = choose|k: int| 0 <= k < x.len() && x[k] == y[0];
        if x[0] != y[0] {
            assert(j != 0 && k != 0);
            assert(y[0].lt(y[j]));
            assert(x[0].lt(x[k]));
            assert(false);
        }
        let xt = x.drop_first();
        let yt = y.drop_first();
        assert(xt.to_set() =~= yt.to_set()) by {
            assert forall|v: Slot| xt.contains(v) == yt.contains(v) by {
                lemma_tail_membership(x, v);
                lemma_tail_membership(y, v);
                if v != x[0] {
                    assert(x.contains(v) <==> x.to_set().contains(v));
                    assert(y.contains(v) <==> y.to_set().contains(v));
                }
            }
        }
        lemma_sorted_listing_unique(xt, yt);
        assert(x.len() == y.len());
        assert forall|i: int| 0 <= i < x.len() implies x[i] == y[i] by {
            if i > 0 {
                assert(xt[i - 1] == x[i]);
                assert(yt[i - 1] == y[i]);
            }
        }
        assert(x =~= y);
    }
}

/// In a strictly sorted sequence the tail holds exactly the non-head elements.
proof fn lemma_tail_membership(x: Seq<Slot>, v: Slot)
    requires
        strictly_sorted(x),
        x.len() > 0,
    ensures
        x.drop_first().contains(v) <==> x.contains(v) && v != x[0],
{
    let xt = x.drop_first();
    assert(forall|p: int| 0 <= p < xt.len() ==> xt[p] == x[p + 1]);
    if xt.contains(v) {
        let p = choose|p: int| 0 <= p < xt.len() && xt[p] == v;
        assert(x[p + 1] == v);
        assert(x[0].lt(x[p + 1]));
    }
    if x.contains(v) && v != x[0] {
        let p = choose|p: int| 0 <= p < x.len() && x[p] == v;
        assert(p != 0);
        assert(xt[p - 1] == v);
    }
}

/// Sorts slots ascending; the result holds exactly the input slots.
fn sort_slots(v: Vec<Slot>) -> (r: Vec<Slot>)
    ensures
        r@.to_multiset() == v@.to_multiset(),
        forall|p: int, q: int| 0 <= p < q < r@.len() ==> r@[p].le(r@[q]),
{
    broadcast use vstd::seq_lib::group_seq_properties;
    broadcast use vstd::multiset::group_multiset_axioms;

    let mut src = v;
    let ghost orig = src@;
    let mut out: Vec<Slot> = Vec::new();
    proof {
        assert(out@.to_multiset() =~= Multiset::<Slot>::empty());
        assert(out@.to_multiset().add(src@.to_multiset()) =~= orig.to_multiset());
    }
    while src.len() > 0
        invariant
            out@.to_multiset().add(src@.to_multiset()) == orig.to_multiset(),
            forall|p: int, q: int| 0 <= p < q < out@.len() ==> out@[p].le(out@[q]),
            forall|k: int, m: int|
                0 <= k < out@.len() && 0 <= m < src@.len() ==> out@[k].le(src@[m]),
        decreases src@.len(),
    {
        let mut min_idx: usize = 0;
        let mut t: usize = 1;
        while t < src.len()
            invariant
                1 <= t <= src@.len(),
                min_idx < t,
                forall|m: int| 0 <= m < t ==> src@[min_idx as int].le(src@[m]),
            decreases src@.len() - t,
        {
            if !src[min_idx].le_exec(&src[t]) {
                proof {
                    lemma_slot_order_total(src@[min_idx as int], src@[t as int]);
                    assert forall|m: int| 0 <= m < t + 1 implies src@[t as int].le(src@[m]) by {
                        lemma_slot_order_total(src@[t as int], src@[m]);
                        lemma_slot_order_total(src@[min_idx as int], src@[m]);
                    }
                }
                min_idx = t;
            }
            t += 1;
        }
        let ghost prev = src@;
        let x = src.remove(min_idx);
        proof {
            prev.remove_ensures(min_idx as int);
            assert(prev.contains(x));
            assert forall|m: int| 0 <= m < src@.len() implies x.le(src@[m]) by {
                if m < min_idx {
                    assert(src@[m] == prev[m]);
                } else {
                    assert(src@[m] == prev[m + 1]);
                }
            }
        }
        let ghost out_prev = out@;
        out.push(x);
        proof {
            assert(out@.to_multiset().add(src@.to_multiset()) =~= orig.to_multiset()) by {
                out_prev.to_multiset_ensures();
                prev.to_multiset_ensures();
                assert(out@ == out_prev.push(x));
                assert(src@ == prev.remove(min_idx as int));
                assert(out@.to_multiset() =~= out_prev.to_multiset().insert(x));
                assert(src@.to_multiset() =~= prev.to_multiset().remove(x));
                assert(prev.to_multiset().count(x) > 0);
            }
            assert(forall|k: int| 0 <= k < out_prev.len() ==> out@[k] == out_prev[k]);
            assert(out@[out_prev.len() as int] == x);
            assert forall|k: int, m: int|
                0 <= k < out@.len() && 0 <= m < src@.len() implies out@[k].le(src@[m]) by {
                if k < out_prev.len() {
                    if m < min_idx {
                        assert(src@[m] == prev[m]);
                    } else {
                        assert(src@[m] == prev[m + 1]);
                    }
                }
            }
        }
    }
    proof {
        assert(src@.to_multiset() =~= Multiset::<Slot>::empty());
        assert(out@.to_multiset() =~= orig.to_multiset());
    }
    out
}

/// The set of slots the engine currently believes are bookable and not yet
/// in the past. The only long-lived state of the engine.
pub struct Availability {
    slots: Vec<Slot>,
}

impl View for Availability {
    type V = Set<Slot>;

    closed spec fn view(&self) -> Set<Slot> {
        self.slots@.to_set()
    }
}

impl Availability {
    /// Each slot is stored at most once.
    pub closed spec fn wf(self) -> bool {
        self.slots@.no_duplicates()
    }

    /// Starts out believing nothing is available.
    pub fn new() -> (r: Availability)
        ensures
            r.wf(),
            r@ == Set::<Slot>::empty(),
    {
        let r = Availability { slots: Vec::new() };
        proof {
            assert(r.slots@.to_set() =~= Set::<Slot>::empty());
        }
        r
    }

    /// Adds a slot if absent; reports true iff it was not already present
    /// (the signal that the slot is newly available).
    pub fn insert(&mut self, v: Slot) -> (r: bool)
        requires
            old(self).wf(),
        ensures
            final(self).wf(),
            r == !old(self)@.contains(v),
            final(self)@ == old(self)@.insert(v),
    {
        broadcast use vstd::seq_lib::group_seq_properties;

        let n = self.slots.len();
        let mut i: usize = 0;
        while i < n
            invariant
                n == self.slots@.len(),
                i <= n,
                self.slots@ == old(self).slots@,
                old(self).wf(),
                forall|k: int| 0 <= k < i ==> self.slots@[k] != v,
            decreases n - i,
        {
            if self.slots[i] == v {
                proof {
                    assert(old(self).slots@.contains(v));
                    assert(old(self)@.insert(v) =~= old(self)@);
                }
                return false;
            }
            i += 1;
        }
        proof {
            assert(!old(self).slots@.contains(v));
        }
        self.slots.push(v);
        proof {
            assert(self.slots@.no_duplicates()) by {
                assert(forall|k: int|
                    0 <= k < old(self).slots@.len() ==> self.slots@[k] == old(self).slots@[k]);
                assert forall|p: int, q: int|
                    0 <= p < q < self.slots@.len() implies self.slots@[p] != self.slots@[q] by {
                    if q == old(self).slots@.len() {
                        assert(self.slots@[q] == v);
                        assert(old(self).slots@[p] != v);
                    }
                }
            }
            assert(self.slots@.to_set() =~= old(self)@.insert(v)) by {
                assert forall|x: Slot|
                    self.slots@.contains(x) == (old(self).slots@.contains(x) || x == v) by {
                    if self.slots@.contains(x) {
                        let k = choose|k: int| 0 <= k < self.slots@.len() && self.slots@[k] == x;
                        if k < old(self).slots@.len() {
                            assert(old(self).slots@[k] == x);
                        } else {
                            assert(x == v);
                        }
                    }
                }
            }
        }
        true
    }

    /// Removes a slot if present; reports true iff it was present (the signal
    /// that the slot was believed free and is now taken by someone else).
    pub fn remove(&mut self, v: &Slot) -> (r: bool)
        requires
            old(self).wf(),
        ensures
            final(self).wf(),
            r == old(self)@.contains(*v),
            final(self)@ == old(self)@.remove(*v),
    {
        broadcast use vstd::seq_lib::group_seq_properties;

        let n = self.slots.len();
        let mut i: usize = 0;
        while i < n
            invariant
                n == self.slots@.len(),
                i <= n,
                self.slots@ == old(self).slots@,
                old(self).wf(),
                forall|k: int| 0 <= k < i ==> self.slots@[k] != *v,
            decreases n - i,
        {
            if self.slots[i] == *v {
                proof {
                    assert(old(self).slots@.contains(*v));
                    old(self).slots@.lemma_multiset_has_no_duplicates();
                }
                let ghost prev = self.slots@;
                self.slots.remove(i);
                proof {
                    prev.to_multiset_ensures();
                    (self.slots@).to_multiset_ensures();
                    assert(self.slots@ == prev.remove(i as int));
                    assert(self.slots@.to_multiset() == prev.to_multiset().remove(*v));
                    assert(self.slots@.no_duplicates()) by {
                        assert(forall|x: Slot|
                            self.slots@.to_multiset().contains(x)
                                ==> self.slots@.to_multiset().count(x) == 1);
                        self.slots@.lemma_multiset_has_no_duplicates_conv();
                    }
                    assert(self.slots@.to_set() =~= old(self)@.remove(*v)) by {
                        assert forall|x: Slot|
                            self.slots@.contains(x) == (prev.contains(x) && x != *v) by {
                            assert(self.slots@.contains(x) <==> self.slots@.to_multiset().count(x)
                                > 0);
                            assert(prev.contains(x) <==> prev.to_multiset().count(x) > 0);
                            if x == *v {
                                assert(prev.to_multiset().count(x) == 1);
                            }
                        }
                    }
                }
                return true;
            }
            i += 1;
        }
        proof {
            assert(!old(self).slots@.contains(*v));
            assert(old(self)@.remove(*v) =~= old(self)@);
        }
        false
    }

    /// Drops every retained slot dated strictly before `today`, keeps the
    /// rest, and returns all kept slots sorted ascending by (date, period).
    /// The set itself is compacted in place to the kept slots.
    pub fn snapshot_and_prune(&mut self, today: Date) -> (r: Vec<Slot>)
        requires
            old(self).wf(),
        ensures
            final(self).wf(),
            final(self)@ == old(self)@.filter(|s: Slot| !s.date.before(today)),
            r@.to_set() == final(self)@,
            r@.no_duplicates(),
            strictly_sorted(r@),
            r@ == spec_sorted_listing(final(self)@),
    {
        broadcast use vstd::seq_lib::group_seq_properties;

        let mut kept: Vec<Slot> = Vec::new();
        let n = self.slots.len();
        let mut i: usize = 0;
        while i < n
            invariant
                n == self.slots@.len(),
                i <= n,
                self.slots@ == old(self).slots@,
                old(self).wf(),
                kept@.no_duplicates(),
                forall|k: int|
                    #![trigger kept@[k]]
                    0 <= k < kept@.len() ==> exists|m: int|
                        0 <= m < i && kept@[k] == #[trigger] self.slots@[m],
                forall|k: int| 0 <= k < kept@.len() ==> !kept@[k].date.before(today),
                forall|m: int|
                    0 <= m < i && !self.slots@[m].date.before(today) ==> kept@.contains(
                        self.slots@[m],
                    ),
            decreases n - i,
        {
            let s = self.slots[i];
            if !s.date.is_before(&today) {
                proof {
                    assert(!kept@.contains(s)) by {
                        if kept@.contains(s) {
                            let k = choose|k: int| 0 <= k < kept@.len() && kept@[k] == s;
                            let m = choose|m: int| 0 <= m < i && kept@[k] == self.slots@[m];
                            assert(self.slots@[m] == self.slots@[i as int]);
                            assert(false);
                        }
                    }
                }
                let ghost kept_prev = kept@;
                kept.push(s);
                proof {
                    assert(kept@ == kept_prev.push(s));
                    assert(kept@.no_duplicates()) by {
                        assert forall|p: int, q: int|
                            0 <= p < q < kept@.len() implies kept@[p] != kept@[q] by {
                            if q == kept_prev.len() {
                                assert(kept@[p] == kept_prev[p]);
                            }
                        }
                    }
                    assert forall|k: int| #![trigger kept@[k]] 0 <= k < kept@.len() implies exists|m: int|
                        0 <= m < i + 1 && kept@[k] == #[trigger] self.slots@[m] by {
                        if k < kept_prev.len() {
                            let m = choose|m: int| 0 <= m < i && kept_prev[k] == self.slots@[m];
                            assert(kept@[k] == kept_prev[k]);
                            assert(0 <= m < i + 1 && kept@[k] == self.slots@[m]);
                        } else {
                            assert(kept@[k] == self.slots@[i as int]);
                        }
                    }
                    assert forall|m: int|
                        0 <= m < i + 1 && !self.slots@[m].date.before(today) implies kept@.contains(
                        self.slots@[m],
                    ) by {
                        if m < i {
                            assert(kept_prev.contains(self.slots@[m]));
                            let k = choose|k: int|
                                0 <= k < kept_prev.len() && kept_prev[k] == self.slots@[m];
                            assert(kept@[k] == self.slots@[m]);
                        } else {
                            assert(kept@[kept_prev.len() as int] == s);
                        }
                    }
                }
            }
            i += 1;
        }
        let ghost pred = |s: Slot| !s.date.before(today);
        proof {
            assert(kept@.to_set() =~= old(self)@.filter(pred)) by {
                assert forall|x: Slot|
                    kept@.contains(x) == (old(self).slots@.contains(x) && pred(x)) by {
                    if kept@.contains(x) {
                        let k = choose|k: int| 0 <= k < kept@.len() && kept@[k] == x;
                        let m = choose|m: int| 0 <= m < n && kept@[k] == self.slots@[m];
                        assert(old(self).slots@[m] == x);
                    }
                    if old(self).slots@.contains(x) && pred(x) {
                        let m = choose|m: int|
                            0 <= m < n && old(self).slots@[m] == x;
                        assert(kept@.contains(self.slots@[m]));
                    }
                }
            }
        }
        let ghost kept_view = kept@;
        let sorted = sort_slots(kept);
        proof {
            kept_view.to_multiset_ensures();
            (sorted@).to_multiset_ensures();
            kept_view.lemma_multiset_has_no_duplicates();
            assert(sorted@.no_duplicates()) by {
                assert(forall|x: Slot|
                    sorted@.to_multiset().contains(x) ==> sorted@.to_multiset().count(x) == 1);
                sorted@.lemma_multiset_has_no_duplicates_conv();
            }
            assert(sorted@.to_set() =~= kept_view.to_set()) by {
                assert forall|x: Slot| sorted@.contains(x) == kept_view.contains(x) by {
                    assert(sorted@.contains(x) <==> sorted@.to_multiset().count(x) > 0);
                    assert(kept_view.contains(x) <==> kept_view.to_multiset().count(x) > 0);
                }
            }
            assert(strictly_sorted(sorted@)) by {
                assert forall|p: int, q: int|
                    0 <= p < q < sorted@.len() implies sorted@[p].lt(sorted@[q]) by {
                    assert(sorted@[p].le(sorted@[q]));
                    assert(sorted@[p] != sorted@[q]);
                }
            }
        }
        let mut stored: Vec<Slot> = Vec::new();
        let mut j: usize = 0;
        while j < sorted.len()
            invariant
                j <= sorted@.len(),
                stored@ == sorted@.subrange(0, j as int),
            decreases sorted@.len() - j,
        {
            stored.push(sorted[j]);
            proof {
                assert(stored@ =~= sorted@.subrange(0, j + 1));
            }
            j += 1;
        }
        proof {
            assert(stored@ =~= sorted@);
        }
        self.slots = stored;
        proof {
            let w = spec_sorted_listing(self@);
            assert(exists|s: Seq<Slot>| s.to_set() == self@ && strictly_sorted(s)) by {
                assert(sorted@.to_set() == self@ && strictly_sorted(sorted@));
            }
            assert(w.to_set() == self@ && strictly_sorted(w));
            lemma_sorted_listing_unique(sorted@, w);
        }
        sorted
    }

    /// Prunes past slots, then renders every kept slot, sorted ascending:
    /// the full current listing as the notification text shows it.
    pub fn get_all_availability_datetime_string(&mut self, today: Date) -> (r: Vec<String>)
        requires
            old(self).wf(),
        ensures
            final(self).wf(),
            final(self)@ == old(self)@.filter(|s: Slot| !s.date.before(today)),
            r@.map_values(|t: String| t@) == spec_sorted_listing(final(self)@).map_values(
                |s: Slot| spec_slot_chars(s),
            ),
    {
        let slots = self.snapshot_and_prune(today);
        format_slots(&slots)
    }
}

/// Inserting the same slot twice: the first insertion reports the slot as new
/// exactly when it was absent, the second reports nothing, and the second
/// leaves the set and its size unchanged.
pub proof fn lemma_insert_idempotent(a: Set<Slot>, v: Slot)
    ensures
        a.insert(v).contains(v),
        a.insert(v).insert(v) == a.insert(v),
        a.insert(v).insert(v).len() == a.insert(v).len(),
{
    assert(a.insert(v).insert(v) =~= a.insert(v));
}

/// Removing a slot that is not present reports nothing and leaves the set
/// unchanged.
pub proof fn lemma_remove_absent(a: Set<Slot>, v: Slot)
    requires
        !a.contains(v),
    ensures
        a.remove(v) == a,
{
    assert(a.remove(v) =~= a);
}

} // verus!

use crate::availability::Availability;
use crate::availability::spec_sorted_listing;
use crate::date::Date;
use crate::date::add_days;
use crate::date::spec_add_days;
use crate::slot::Slot;
use crate::slot::spec_slot_chars;
use crate::text::build_message;
use crate::text::spec_message;
use vstd::prelude::*;

verus! {

/// Externally fixed parameters of the booking page: how many days one page
/// shows, how many periods each day has, and the status tokens the page uses
/// for bookable cells and for cells reserved by someone else.
pub struct ScanConfig {
    pub days_per_page: u8,
    pub periods_per_day: u8,
    pub available_status: String,
    pub reserved_status: String,
}

/// The slots of one day's row whose cell equals `token`, in period order,
/// starting at period `j`; absent cells are skipped, never an error.
pub open spec fn spec_decode_row(
    date: Date,
    row: Vec<String>,
    token: Seq<char>,
    periods: int,
    j: int,
) -> Seq<Slot>
    decreases periods - j,
{
    if j < 0 || j >= periods {
        Seq::empty()
    } else {
        let rest = spec_decode_row(date, row, token, periods, j + 1);
        if j < row@.len() && row@[j]@ == token {
            seq![Slot { date, period: j as u8 }] + rest
        } else {
            rest
        }
    }
}

/// The slots of a weekly grid whose cell equals `token`, in row-major
/// (date-major, then period) order, starting at day `i`; day `i` covers the
/// date `i` days after the anchor. Absent rows and cells are skipped.
pub open spec fn spec_decode(
    anchor: Date,
    grid: Seq<Vec<String>>,
    token: Seq<char>,
    days: int,
    periods: int,
    i: int,
) -> Seq<Slot>
    decreases days - i,
{
    if i < 0 || i >= days {
        Seq::empty()
    } else {
        let here = if i < grid.len() {
            spec_decode_row(spec_add_days(anchor, i), grid[i], token, periods, 0)
        } else {
            Seq::empty()
        };
        here + spec_decode(anchor, grid, token, days, periods, i + 1)
    }
}

/// The slots of `s`, in order, that are not yet present at the moment each is
/// inserted (a slot that repeats in `s` is reported only once).
pub open spec fn spec_new_entries(a: Set<Slot>, s: Seq<Slot>) -> Seq<Slot>
    decreases s.len(),
{
    if s.len() == 0 {
        Seq::empty()
    } else {
        let rest = spec_new_entries(a.insert(s[0]), s.drop_first());
        if a.contains(s[0]) {
            rest
        } else {
            seq![s[0]] + rest
        }
    }
}

/// The slots of `s`, in order, that are present at the moment each is removed.
pub open spec fn spec_removed_entries(a: Set<Slot>, s: Seq<Slot>) -> Seq<Slot>
    decreases s.len(),
{
    if s.len() == 0 {
        Seq::empty()
    } else {
        let rest = spec_removed_entries(a.remove(s[0]), s.drop_first());
        if a.contains(s[0]) {
            seq![s[0]] + rest
        } else {
            rest
        }
    }
}

/// When no slot of `s` is new, inserting all of `s` changes nothing.
pub proof fn lemma_no_new_entries(a: Set<Slot>, s: Seq<Slot>)
    requires
        spec_new_entries(a, s).len() == 0,
    ensures
        a.union(s.to_set()) == a,
    decreases s.len(),
{
    broadcast use vstd::seq_lib::group_seq_properties;

    if s.len() == 0 {
        assert(a.union(s.to_set()) =~= a);
    } else {
        assert(a.contains(s[0]));
        assert(spec_new_entries(a.insert(s[0]), s.drop_first()).len() == 0);
        assert(a.insert(s[0]) =~= a);
        lemma_no_new_entries(a, s.drop_first());
        assert(forall|p: int| 0 <= p < s.drop_first().len() ==> s.drop_first()[p] == s[p + 1]);
        assert(a.union(s.to_set()) =~= a) by {
            assert forall|x: Slot| s.contains(x) implies a.contains(x) by {
                let p = choose|p: int| 0 <= p < s.len() && s[p] == x;
                if p > 0 {
                    assert(s.drop_first()[p - 1] == x);
                    assert(s.drop_first().contains(x));
                    assert(a.union(s.drop_first().to_set()).contains(x));
                }
            }
        }
    }
}

/// When no slot of `s` was present, removing all of `s` changes nothing.
pub proof fn lemma_no_removed_entries(a: Set<Slot>, s: Seq<Slot>)
    requires
        spec_removed_entries(a, s).len() == 0,
    ensures
        a.difference(s.to_set()) == a,
    decreases s.len(),
{
    broadcast use vstd::seq_lib::group_seq_properties;

    if s.len() == 0 {
        assert(a.difference(s.to_set()) =~= a);
    } else {
        assert(!a.contains(s[0]));
        assert(spec_removed_entries(a.remove(s[0]), s.drop_first()).len() == 0);
        assert(a.remove(s[0]) =~= a);
        lemma_no_removed_entries(a, s.drop_first());
        assert(forall|p: int| 0 <= p < s.drop_first().len() ==> s.drop_first()[p] == s[p + 1]);
        assert(a.difference(s.to_set()) =~= a) by {
            assert forall|x: Slot| s.contains(x) implies !a.contains(x) by {
                let p = choose|p: int| 0 <= p < s.len() && s[p] == x;
                if p > 0 {
                    assert(s.drop_first()[p - 1] == x);
                    assert(s.drop_first().contains(x));
                    assert(a.difference(s.drop_first().to_set()) == a);
                    assert(!a.difference(s.drop_first().to_set()).contains(x));
                }
            }
        }
    }
}

/// Walks weekly snapshots, tracks the availability set, and reports changes.
pub struct AvailabilityChecker {
    availability: Availability,
    config: ScanConfig,
}

impl AvailabilityChecker {
    /// The slots currently believed available.
    pub closed spec fn slots(self) -> Set<Slot> {
        self.availability@
    }

    pub closed spec fn wf(self) -> bool {
        self.availability.wf()
    }

    pub closed spec fn cfg(self) -> ScanConfig {
        self.config
    }

    /// Starts a checker that believes nothing is available yet.
    pub fn new(config: ScanConfig) -> (r: AvailabilityChecker)
        ensures
            r.wf(),
            r.slots() == Set::<Slot>::empty(),
            r.cfg() == config,
    {
        AvailabilityChecker { availability: Availability::new(), config }
    }

    /// Every slot of the grid marked with `token`, row-major.
    fn decode_matching(&self, start_date: Date, table_vec: &Vec<Vec<String>>, token: &String) -> (r:
        Vec<Slot>)
        requires
            start_date.wf(),
        ensures
            r@ == spec_decode(
                start_date,
                table_vec@,
                token@,
                self.cfg().days_per_page as int,
                self.cfg().periods_per_day as int,
                0,
            ),
    {
        let days = self.config.days_per_page;
        let periods = self.config.periods_per_day;
        let ghost grid = table_vec@;
        let ghost full = spec_decode(start_date, grid, token@, days as int, periods as int, 0);
        let mut r: Vec<Slot> = Vec::new();
        let mut i: u8 = 0;
        while i < days
            invariant
                i <= days,
                start_date.wf(),
                grid == table_vec@,
                full == spec_decode(start_date, grid, token@, days as int, periods as int, 0),
                full == r@ + spec_decode(
                    start_date,
                    grid,
                    token@,
                    days as int,
                    periods as int,
                    i as int,
                ),
            decreases days - i,
        {
            let date = add_days(&start_date, i as u16);
            if (i as usize) < table_vec.len() {
                let ghost row_full = spec_decode_row(
                    date,
                    grid[i as int],
                    token@,
                    periods as int,
                    0,
                );
                proof {
                    assert(spec_decode(start_date, grid, token@, days as int, periods as int, i as int)
                        == row_full + spec_decode(
                        start_date,
                        grid,
                        token@,
                        days as int,
                        periods as int,
                        i as int + 1,
                    ));
                }
                let row = &table_vec[i as usize];
                let mut j: u8 = 0;
                while j < periods
                    invariant
                        j <= periods,
                        grid == table_vec@,
                        row@ == grid[i as int]@,
                        i < days,
                        date == spec_add_days(start_date, i as int),
                        row_full == spec_decode_row(date, grid[i as int], token@, periods as int, 0),
                        full == r@ + spec_decode_row(
                            date,
                            grid[i as int],
                            token@,
                            periods as int,
                            j as int,
                        ) + spec_decode(
                            start_date,
                            grid,
                            token@,
                            days as int,
                            periods as int,
                            i as int + 1,
                        ),
                    decreases periods - j,
                {
                    let ghost row_rest = spec_decode_row(
                        date,
                        grid[i as int],
                        token@,
                        periods as int,
                        j as int,
                    );
                    if (j as usize) < row.len() {
                        if row[j as usize].eq(token) {
                            let ghost r_prev = r@;
                            r.push(Slot { date, period: j });
                            proof {
                                assert(row_rest == seq![Slot { date, period: j }]
                                    + spec_decode_row(
                                    date,
                                    grid[i as int],
                                    token@,
                                    periods as int,
                                    j as int + 1,
                                ));
                                assert(r@ =~= r_prev + seq![Slot { date, period: j }]);
                                assert(r@ + spec_decode_row(
                                    date,
                                    grid[i as int],
                                    token@,
                                    periods as int,
                                    j as int + 1,
                                ) =~= r_prev + row_rest);
                            }
                        }
                    }
                    j += 1;
                }
                proof {
                    assert(spec_decode_row(date, grid[i as int], token@, periods as int, periods as int)
                        =~= Seq::<Slot>::empty());
                    assert(r@ + Seq::<Slot>::empty() =~= r@);
                }
            } else {
                proof {
                    assert(spec_decode(start_date, grid, token@, days as int, periods as int, i as int)
                        == Seq::<Slot>::empty() + spec_decode(
                        start_date,
                        grid,
                        token@,
                        days as int,
                        periods as int,
                        i as int + 1,
                    ));
                    assert(Seq::<Slot>::empty() + spec_decode(
                        start_date,
                        grid,
                        token@,
                        days as int,
                        periods as int,
                        i as int + 1,
                    ) =~= spec_decode(
                        start_date,
                        grid,
                        token@,
                        days as int,
                        periods as int,
                        i as int + 1,
                    ));
                }
            }
            i += 1;
        }
        proof {
            assert(spec_decode(start_date, grid, token@, days as int, periods as int, days as int)
                =~= Seq::<Slot>::empty());
            assert(full =~= r@);
        }
        r
    }

    /// Every slot the grid shows as bookable, row-major, bounds-checked.
    pub fn get_availability(&self, start_date: Date, table_vec: &Vec<Vec<String>>) -> (r: Vec<
        Slot>)
        requires
            start_date.wf(),
        ensures
            r@ == spec_decode(
                start_date,
                table_vec@,
                self.cfg().available_status@,
                self.cfg().days_per_page as int,
                self.cfg().periods_per_day as int,
                0,
            ),
    {
        self.decode_matching(start_date, table_vec, &self.config.available_status)
    }

    /// Every slot the grid shows as reserved by someone else, row-major.
    pub fn get_unavailable_datetime(&self, start_date: Date, table_vec: &Vec<Vec<String>>) -> (r:
        Vec<Slot>)
        requires
            start_date.wf(),
        ensures
            r@ == spec_decode(
                start_date,
                table_vec@,
                self.cfg().reserved_status@,
                self.cfg().days_per_page as int,
                self.cfg().periods_per_day as int,
                0,
            ),
    {
        self.decode_matching(start_date, table_vec, &self.config.reserved_status)
    }

    /// Inserts every decoded available slot and renders those that were not
    /// yet present, in order.
    pub fn get_new_available_datetime_string(&mut self, available_datetime: Vec<Slot>) -> (r: Vec<
        String>)
        requires
            old(self).wf(),
        ensures
            final(self).wf(),
            final(self).cfg() == old(self).cfg(),
            final(self).slots() == old(self).slots().union(available_datetime@.to_set()),
            r@.map_values(|t: String| t@) == spec_new_entries(
                old(self).slots(),
                available_datetime@,
            ).map_values(|s: Slot| spec_slot_chars(s)),
    {
        broadcast use vstd::seq_lib::group_seq_properties;

        let ghost a0 = old(self).slots();
        let ghost s = available_datetime@;
        let ghost full = spec_new_entries(a0, s);
        let mut r: Vec<String> = Vec::new();
        let ghost mut news: Seq<Slot> = Seq::empty();
        proof {
            assert(s.skip(0) =~= s);
            assert(news + spec_new_entries(self.slots(), s.skip(0)) =~= full);
            assert(a0.union(s.take(0).to_set()) =~= a0);
        }
        let n = available_datetime.len();
        let mut k: usize = 0;
        while k < n
            invariant
                k <= n,
                n == s.len(),
                s == available_datetime@,
                old(self).wf(),
                self.wf(),
                self.cfg() == old(self).cfg(),
                full == spec_new_entries(a0, s),
                full == news + spec_new_entries(self.slots(), s.skip(k as int)),
                self.slots() == a0.union(s.take(k as int).to_set()),
                r@.map_values(|t: String| t@) == news.map_values(|x: Slot| spec_slot_chars(x)),
            decreases n - k,
        {
            let ghost a_here = self.slots();
            let ghost suffix = s.skip(k as int);
            proof {
                assert(suffix.len() == s.len() - k);
                assert(suffix[0] == s[k as int]);
                assert(suffix.drop_first() =~= s.skip(k as int + 1));
            }
            let v = available_datetime[k];
            let was_new = self.availability.insert(v);
            proof {
                assert(self.slots() == a_here.insert(v));
                assert(s.take(k as int + 1) =~= s.take(k as int).push(s[k as int]));
                assert(self.slots() =~= a0.union(s.take(k as int + 1).to_set())) by {
                    assert forall|x: Slot|
                        s.take(k as int + 1).contains(x) == (s.take(k as int).contains(x) || x
                            == v) by {
                        let t1 = s.take(k as int + 1);
                        let t0 = s.take(k as int);
                        assert(forall|p: int| 0 <= p < t1.len() ==> t1[p] == s[p]);
                        assert(forall|p: int| 0 <= p < t0.len() ==> t0[p] == s[p]);
                        if t1.contains(x) {
                            let p = choose|p: int| 0 <= p < t1.len() && t1[p] == x;
                            if p < k as int {
                                assert(t0[p] == x);
                            } else {
                                assert(x == s[k as int]);
                            }
                        }
                        if t0.contains(x) {
                            let p = choose|p: int| 0 <= p < t0.len() && t0[p] == x;
                            assert(t1[p] == x);
                        }
                        if x == v {
                            assert(t1[k as int] == x);
                        }
                    }
                }
            }
            if was_new {
                let rendered = crate::slot::slot_string(&v);
                let ghost r_prev = r@;
                let ghost news_prev = news;
                r.push(rendered);
                proof {
                    news = news_prev.push(v);
                    assert(spec_new_entries(a_here, suffix) == seq![v] + spec_new_entries(
                        a_here.insert(v),
                        suffix.drop_first(),
                    ));
                    assert(news_prev + (seq![v] + spec_new_entries(
                        self.slots(),
                        s.skip(k as int + 1),
                    )) =~= news + spec_new_entries(self.slots(), s.skip(k as int + 1)));
                    assert(r@ == r_prev.push(rendered));
                    assert(rendered@ == spec_slot_chars(v));
                    assert(r_prev.map_values(|t: String| t@).len() == r_prev.len());
                    assert(news_prev.map_values(|x: Slot| spec_slot_chars(x)).len()
                        == news_prev.len());
                    assert(r_prev.len() == news_prev.len());
                    assert forall|idx: int|
                        0 <= idx < news.len() implies (#[trigger] r@[idx])@ == spec_slot_chars(
                        news[idx],
                    ) by {
                        if idx < news_prev.len() {
                            assert(r_prev.map_values(|t: String| t@)[idx] == news_prev.map_values(
                                |x: Slot| spec_slot_chars(x),
                            )[idx]);
                            assert(r@[idx] == r_prev[idx]);
                            assert(news[idx] == news_prev[idx]);
                        } else {
                            assert(r@[idx] == rendered);
                            assert(news[idx] == v);
                        }
                    }
                    assert(r@.map_values(|t: String| t@) =~= news.map_values(
                        |x: Slot| spec_slot_chars(x),
                    ));
                }
            } else {
                proof {
                    assert(spec_new_entries(a_here, suffix) == spec_new_entries(
                        a_here.insert(v),
                        suffix.drop_first(),
                    ));
                }
            }
            k += 1;
        }
        proof {
            assert(s.skip(n as int).len() == 0);
            assert(spec_new_entries(self.slots(), s.skip(n as int)) =~= Seq::<Slot>::empty());
            assert(news + Seq::<Slot>::empty() =~= news);
            assert(s.take(n as int) =~= s);
        }
        r
    }

    /// Removes every decoded reserved slot and renders those that were
    /// present (believed free, now taken by someone else), in order.
    pub fn get_unavailable_datetime_string_reserved_by_others(
        &mut self,
        unavailable_datetime: Vec<Slot>,
    ) -> (r: Vec<String>)
        requires
            old(self).wf(),
        ensures
            final(self).wf(),
            final(self).cfg() == old(self).cfg(),
            final(self).slots() == old(self).slots().difference(unavailable_datetime@.to_set()),
            r@.map_values(|t: String| t@) == spec_removed_entries(
                old(self).slots(),
                unavailable_datetime@,
            ).map_values(|s: Slot| spec_slot_chars(s)),
    {
        broadcast use vstd::seq_lib::group_seq_properties;

        let ghost a0 = old(self).slots();
        let ghost s = unavailable_datetime@;
        let ghost full = spec_removed_entries(a0, s);
        let mut r: Vec<String> = Vec::new();
        let ghost mut gone: Seq<Slot> = Seq::empty();
        proof {
            assert(s.skip(0) =~= s);
            assert(gone + spec_removed_entries(self.slots(), s.skip(0)) =~= full);
            assert(a0.difference(s.take(0).to_set()) =~= a0);
        }
        let n = unavailable_datetime.len();
        let mut k: usize = 0;
        while k < n
            invariant
                k <= n,
                n == s.len(),
                s == unavailable_datetime@,
                old(self).wf(),
                self.wf(),
                self.cfg() == old(self).cfg(),
                full == spec_removed_entries(a0, s),
                full == gone + spec_removed_entries(self.slots(), s.skip(k as int)),
                self.slots() == a0.difference(s.take(k as int).to_set()),
                r@.map_values(|t: String| t@) == gone.map_values(|x: Slot| spec_slot_chars(x)),
            decreases n - k,
        {
            let ghost a_here = self.slots();
            let ghost suffix = s.skip(k as int);
            proof {
                assert(suffix.len() == s.len() - k);
                assert(suffix[0] == s[k as int]);
                assert(suffix.drop_first() =~= s.skip(k as int + 1));
            }
            let v = unavailable_datetime[k];
            let was_there = self.availability.remove(&v);
            proof {
                assert(self.slots() == a_here.remove(v));
                assert(s.take(k as int + 1) =~= s.take(k as int).push(s[k as int]));
                assert(self.slots() =~= a0.difference(s.take(k as int + 1).to_set())) by {
                    assert forall|x: Slot|
                        s.take(k as int + 1).contains(x) == (s.take(k as int).contains(x) || x
                            == v) by {
                        let t1 = s.take(k as int + 1);
                        let t0 = s.take(k as int);
                        assert(forall|p: int| 0 <= p < t1.len() ==> t1[p] == s[p]);
                        assert(forall|p: int| 0 <= p < t0.len() ==> t0[p] == s[p]);
                        if t1.contains(x) {
                            let p = choose|p: int| 0 <= p < t1.len() && t1[p] == x;
                            if p < k as int {
                                assert(t0[p] == x);
                            } else {
                                assert(x == s[k as int]);
                            }
                        }
                        if t0.contains(x) {
                            let p = choose|p: int| 0 <= p < t0.len() && t0[p] == x;
                            assert(t1[p] == x);
                        }
                        if x == v {
                            assert(t1[k as int] == x);
                        }
                    }
                }
            }
            if was_there {
                let rendered = crate::slot::slot_string(&v);
                let ghost r_prev = r@;
                let ghost gone_prev = gone;
                r.push(rendered);
                proof {
                    gone = gone_prev.push(v);
                    assert(spec_removed_entries(a_here, suffix) == seq![v] + spec_removed_entries(
                        a_here.remove(v),
                        suffix.drop_first(),
                    ));
                    assert(gone_prev + (seq![v] + spec_removed_entries(
                        self.slots(),
                        s.skip(k as int + 1),
                    )) =~= gone + spec_removed_entries(self.slots(), s.skip(k as int + 1)));
                    assert(r@ == r_prev.push(rendered));
                    assert(rendered@ == spec_slot_chars(v));
                    assert(r_prev.map_values(|t: String| t@).len() == r_prev.len());
                    assert(gone_prev.map_values(|x: Slot| spec_slot_chars(x)).len()
                        == gone_prev.len());
                    assert(r_prev.len() == gone_prev.len());
                    assert forall|idx: int|
                        0 <= idx < gone.len() implies (#[trigger] r@[idx])@ == spec_slot_chars(
                        gone[idx],
                    ) by {
                        if idx < gone_prev.len() {
                            assert(r_prev.map_values(|t: String| t@)[idx] == gone_prev.map_values(
                                |x: Slot| spec_slot_chars(x),
                            )[idx]);
                            assert(r@[idx] == r_prev[idx]);
                            assert(gone[idx] == gone_prev[idx]);
                        } else {
                            assert(r@[idx] == rendered);
                            assert(gone[idx] == v);
                        }
                    }
                    assert(r@.map_values(|t: String| t@) =~= gone.map_values(
                        |x: Slot| spec_slot_chars(x),
                    ));
                }
            } else {
                proof {
                    assert(spec_removed_entries(a_here, suffix) == spec_removed_entries(
                        a_here.remove(v),
                        suffix.drop_first(),
                    ));
                }
            }
            k += 1;
        }
        proof {
            assert(s.skip(n as int).len() == 0);
            assert(spec_removed_entries(self.slots(), s.skip(n as int)) =~= Seq::<Slot>::empty());
            assert(gone + Seq::<Slot>::empty() =~= gone);
            assert(s.take(n as int) =~= s);
        }
        r
    }

    /// Handles one weekly snapshot: inserts what the page shows as bookable,
    /// removes what it shows as reserved by someone else, and when either
    /// changed the set, prunes past slots and returns the notification text
    /// (the newly available slots, then the full current listing). When
    /// nothing changed, returns nothing and leaves the set untouched.
    pub fn process_snapshot(
        &mut self,
        start_date: Date,
        table_vec: &Vec<Vec<String>>,
        today: Date,
    ) -> (r: Option<String>)
        requires
            old(self).wf(),
            start_date.wf(),
        ensures
            final(self).wf(),
            final(self).cfg() == old(self).cfg(),
            ({
                let avail = spec_decode(
                    start_date,
                    table_vec@,
                    old(self).cfg().available_status@,
                    old(self).cfg().days_per_page as int,
                    old(self).cfg().periods_per_day as int,
                    0,
                );
                let resv = spec_decode(
                    start_date,
                    table_vec@,
                    old(self).cfg().reserved_status@,
                    old(self).cfg().days_per_page as int,
                    old(self).cfg().periods_per_day as int,
                    0,
                );
                let news = spec_new_entries(old(self).slots(), avail);
                let mid = old(self).slots().union(avail.to_set());
                let gone = spec_removed_entries(mid, resv);
                let settled = mid.difference(resv.to_set());
                &&& (r is Some <==> news.len() > 0 || gone.len() > 0)
                &&& (news.len() == 0 && gone.len() == 0 ==> final(self).slots() == old(
                    self,
                ).slots())
                &&& (r matches Some(m) ==> final(self).slots() == settled.filter(
                    |s: Slot| !s.date.before(today),
                ) && m@ == spec_message(
                    news.map_values(|s: Slot| spec_slot_chars(s)),
                    spec_sorted_listing(final(self).slots()).map_values(
                        |s: Slot| spec_slot_chars(s),
                    ),
                ))
            }),
    {
        let available_datetime = self.get_availability(start_date, table_vec);
        let new_available = self.get_new_available_datetime_string(available_datetime);
        let unavailable_datetime = self.get_unavailable_datetime(start_date, table_vec);
        let taken = self.get_unavailable_datetime_string_reserved_by_others(unavailable_datetime);
        if new_available.len() == 0 && taken.len() == 0 {
            proof {
                let avail = spec_decode(
                    start_date,
                    table_vec@,
                    old(self).cfg().available_status@,
                    old(self).cfg().days_per_page as int,
                    old(self).cfg().periods_per_day as int,
                    0,
                );
                let resv = spec_decode(
                    start_date,
                    table_vec@,
                    old(self).cfg().reserved_status@,
                    old(self).cfg().days_per_page as int,
                    old(self).cfg().periods_per_day as int,
                    0,
                );
                let news = spec_new_entries(old(self).slots(), avail);
                let mid = old(self).slots().union(avail.to_set());
                let gone = spec_removed_entries(mid, resv);
                assert(new_available@.map_values(|t: String| t@) == news.map_values(
                    |s: Slot| spec_slot_chars(s),
                ));
                assert(news.map_values(|s: Slot| spec_slot_chars(s)).len() == news.len());
                assert(new_available@.map_values(|t: String| t@).len() == new_available@.len());
                assert(taken@.map_values(|t: String| t@) == gone.map_values(
                    |s: Slot| spec_slot_chars(s),
                ));
                assert(gone.map_values(|s: Slot| spec_slot_chars(s)).len() == gone.len());
                assert(taken@.map_values(|t: String| t@).len() == taken@.len());
                lemma_no_new_entries(old(self).slots(), avail);
                lemma_no_removed_entries(mid, resv);
            }
            return None;
        }
        proof {
            let avail = spec_decode(
                start_date,
                table_vec@,
                old(self).cfg().available_status@,
                old(self).cfg().days_per_page as int,
                old(self).cfg().periods_per_day as int,
                0,
            );
            let resv = spec_decode(
                start_date,
                table_vec@,
                old(self).cfg().reserved_status@,
                old(self).cfg().days_per_page as int,
                old(self).cfg().periods_per_day as int,
                0,
            );
            let news = spec_new_entries(old(self).slots(), avail);
            let mid = old(self).slots().union(avail.to_set());
            let gone = spec_removed_entries(mid, resv);
            assert(new_available@.map_values(|t: String| t@) == news.map_values(
                |s: Slot| spec_slot_chars(s),
            ));
            assert(news.map_values(|s: Slot| spec_slot_chars(s)).len() == news.len());
            assert(new_available@.map_values(|t: String| t@).len() == new_available@.len());
            assert(taken@.map_values(|t: String| t@) == gone.map_values(
                |s: Slot| spec_slot_chars(s),
            ));
            assert(gone.map_values(|s: Slot| spec_slot_chars(s)).len() == gone.len());
            assert(taken@.map_values(|t: String| t@).len() == taken@.len());
            assert(news.len() > 0 || gone.len() > 0);
        }
        let all_strings = self.availability.get_all_availability_datetime_string(today);
        let message = build_message(&new_available, &all_strings);
        Some(message)
    }
}

} // verus!

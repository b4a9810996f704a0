use crate::date::Date;
use vstd::prelude::*;
use vstd::string::StringExecFns;

verus! {

/// The hour of day at which period 0 starts; period `p` runs at hour
/// `FIRST_HOUR + p`.
pub const FIRST_HOUR: u8 = 9;

/// One bookable unit: a calendar date plus a period index within that day.
/// Slots are compared by value; two slots are equal iff date and period match.
#[derive(Clone, Copy, PartialEq, Eq, Structural, Debug, Hash)]
pub struct Slot {
    pub date: Date,
    pub period: u8,
}

impl Slot {
    /// Chronological order on slots: by date, then by period.
    pub open spec fn lt(self, other: Slot) -> bool {
        ||| self.date.before(other.date)
        ||| self.date == other.date && self.period < other.period
    }

    pub open spec fn le(self, other: Slot) -> bool {
        self.lt(other) || self == other
    }

    pub fn le_exec(&self, other: &Slot) -> (r: bool)
        ensures
            r == self.le(*other),
    {
        if self.date.year != other.date.year {
            self.date.year < other.date.year
        } else if self.date.month != other.date.month {
            self.date.month < other.date.month
        } else if self.date.day != other.date.day {
            self.date.day < other.date.day
        } else {
            self.period <= other.period
        }
    }
}

/// Slot order is total: for laws and sorting proofs.
pub proof fn lemma_slot_order_total(a: Slot, b: Slot)
    ensures
        a.le(b) || b.le(a),
        a.le(b) && b.le(a) ==> a == b,
        a.le(b) && a != b ==> a.lt(b),
{
}

pub open spec fn spec_digit_char(d: int) -> char {
    if d == 0 {
        '0'
    } else if d == 1 {
        '1'
    } else if d == 2 {
        '2'
    } else if d == 3 {
        '3'
    } else if d == 4 {
        '4'
    } else if d == 5 {
        '5'
    } else if d == 6 {
        '6'
    } else if d == 7 {
        '7'
    } else if d == 8 {
        '8'
    } else {
        '9'
    }
}

/// Decimal rendering of a number, without leading zeroes.
pub open spec fn spec_num_chars(n: nat) -> Seq<char>
    decreases n,
{
    if n < 10 {
        seq![spec_digit_char(n as int)]
    } else {
        spec_num_chars(n / 10).push(spec_digit_char((n % 10) as int))
    }
}

fn digit_str(d: u8) -> (r: &'static str)
    requires
        d < 10,
    ensures
        r@ == seq![spec_digit_char(d as int)],
{
    proof {
        reveal_strlit("0");
        reveal_strlit("1");
        reveal_strlit("2");
        reveal_strlit("3");
        reveal_strlit("4");
        reveal_strlit("5");
        reveal_strlit("6");
        reveal_strlit("7");
        reveal_strlit("8");
        reveal_strlit("9");
    }
    let r: &'static str = match d {
        0 => "0",
        1 => "1",
        2 => "2",
        3 => "3",
        4 => "4",
        5 => "5",
        6 => "6",
        7 => "7",
        8 => "8",
        _ => "9",
    };
    proof {
        assert(r@ =~= seq![spec_digit_char(d as int)]);
    }
    r
}

/// Renders `n` in decimal, without leading zeroes.
pub fn num_string(n: u64) -> (r: String)
    ensures
        r@ == spec_num_chars(n as nat),
    decreases n,
{
    if n < 10 {
        let mut s = String::new();
        s.append(digit_str(n as u8));
        proof {
            assert(s@ =~= spec_num_chars(n as nat));
        }
        s
    } else {
        let mut s = num_string(n / 10);
        s.append(digit_str((n % 10) as u8));
        proof {
            assert(s@ =~= spec_num_chars(n as nat));
        }
        s
    }
}

/// The human-readable rendering of one slot: month, day, and starting hour.
pub open spec fn spec_slot_chars(s: Slot) -> Seq<char> {
    spec_num_chars(s.date.month as nat) + seq!['月'] + spec_num_chars(s.date.day as nat)
        + seq!['日'] + spec_num_chars((FIRST_HOUR + s.period) as nat) + seq!['時']
}

/// Formats one slot exactly as the notification text expects it.
pub fn slot_string(s: &Slot) -> (r: String)
    ensures
        r@ == spec_slot_chars(*s),
{
    proof {
        reveal_strlit("月");
        reveal_strlit("日");
        reveal_strlit("時");
    }
    let mut out = num_string(s.date.month as u64);
    out.append("月");
    let day_s = num_string(s.date.day as u64);
    out.append(day_s.as_str());
    out.append("日");
    let hour: u64 = FIRST_HOUR as u64 + s.period as u64;
    let hour_s = num_string(hour);
    out.append(hour_s.as_str());
    out.append("時");
    proof {
        assert(out@ =~= spec_slot_chars(*s));
    }
    out
}

} // verus!

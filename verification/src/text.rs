use crate::slot::Slot;
use crate::slot::slot_string;
use crate::slot::spec_slot_chars;
use vstd::prelude::*;
use vstd::string::StrSliceExecFns;
use vstd::string::StringExecFns;

verus! {

/// The separator between two slots in a listing.
pub open spec fn spec_sep() -> Seq<char> {
    seq![',', ' ']
}

/// Comma-joined rendering of a list of parts.
pub open spec fn spec_join(parts: Seq<Seq<char>>) -> Seq<char>
    decreases parts.len(),
{
    if parts.len() == 0 {
        Seq::empty()
    } else if parts.len() == 1 {
        parts[0]
    } else {
        spec_join(parts.drop_last()) + spec_sep() + parts.last()
    }
}

/// Joins the parts with a comma and a space between each two.
pub fn join_comma(parts: &Vec<String>) -> (r: String)
    ensures
        r@ == spec_join(parts@.map_values(|s: String| s@)),
{
    let ghost views = parts@.map_values(|s: String| s@);
    proof {
        reveal_strlit(", ");
    }
    if parts.len() == 0 {
        let out = String::new();
        proof {
            assert(out@ =~= spec_join(views));
        }
        return out;
    }
    let mut out = parts[0].clone();
    proof {
        assert(views.take(1).len() == 1);
        assert(views.take(1)[0] == views[0]);
        assert(out@ == spec_join(views.take(1)));
    }
    let n = parts.len();
    let mut i: usize = 1;
    while i < n
        invariant
            1 <= i <= n,
            n == parts@.len(),
            views == parts@.map_values(|s: String| s@),
            out@ == spec_join(views.take(i as int)),
        decreases n - i,
    {
        out.append(", ");
        out.append(parts[i].as_str());
        proof {
            reveal_strlit(", ");
            assert((", ")@ =~= spec_sep());
            assert(views.take(i + 1).drop_last() =~= views.take(i as int));
            assert(views.take(i + 1).last() == views[i as int]);
            assert(views[i as int] == parts@[i as int]@);
            assert(out@ == spec_join(views.take(i + 1)));
        }
        i += 1;
    }
    proof {
        assert(views.take(n as int) =~= views);
    }
    out
}

/// Renders each slot in order.
pub fn format_slots(v: &Vec<Slot>) -> (r: Vec<String>)
    ensures
        r@.map_values(|t: String| t@) == v@.map_values(|s: Slot| spec_slot_chars(s)),
{
    let mut r: Vec<String> = Vec::new();
    let n = v.len();
    let mut i: usize = 0;
    while i < n
        invariant
            i <= n,
            n == v@.len(),
            r@.len() == i,
            forall|k: int| 0 <= k < i ==> r@[k]@ == spec_slot_chars(v@[k]),
        decreases n - i,
    {
        let s = slot_string(&v[i]);
        r.push(s);
        i += 1;
    }
    proof {
        assert(r@.map_values(|t: String| t@) =~= v@.map_values(|s: Slot| spec_slot_chars(s)));
    }
    r
}

/// The notification's header line.
pub open spec fn spec_header() -> Seq<char> {
    seq!['#', '#', ' ', '予', '約', '可', '能', '日', '時', '\n']
}

/// The marker in front of the newly available slots.
pub open spec fn spec_new_prefix() -> Seq<char> {
    seq!['n', 'e', 'w', ':', ' ']
}

/// The full notification text: the header; the newly available slots, only
/// when there are any; then the complete current listing.
pub open spec fn spec_message(new_parts: Seq<Seq<char>>, all_parts: Seq<Seq<char>>) -> Seq<char> {
    spec_header() + (if new_parts.len() > 0 {
        spec_new_prefix() + spec_join(new_parts) + seq!['\n']
    } else {
        Seq::<char>::empty()
    }) + spec_join(all_parts)
}

/// Builds the notification text from the rendered newly-available slots and
/// the rendered full current listing.
pub fn build_message(new_parts: &Vec<String>, all_parts: &Vec<String>) -> (r: String)
    ensures
        r@ == spec_message(
            new_parts@.map_values(|s: String| s@),
            all_parts@.map_values(|s: String| s@),
        ),
{
    proof {
        reveal_strlit("## 予約可能日時\n");
        reveal_strlit("new: ");
        reveal_strlit("\n");
    }
    let mut out = String::new();
    out.append("## 予約可能日時\n");
    proof {
        assert(out@ =~= spec_header());
    }
    if new_parts.len() > 0 {
        out.append("new: ");
        let joined = join_comma(new_parts);
        out.append(joined.as_str());
        out.append("\n");
    }
    let joined_all = join_comma(all_parts);
    out.append(joined_all.as_str());
    proof {
        assert(out@ =~= spec_message(
            new_parts@.map_values(|s: String| s@),
            all_parts@.map_values(|s: String| s@),
        ));
    }
    out
}

/// Index of the first opening parenthesis in `s`, or the length if none.
pub open spec fn spec_paren_cut(s: Seq<char>) -> int
    decreases s.len(),
{
    if s.len() == 0 {
        0
    } else if s[0] == '(' {
        0
    } else {
        1 + spec_paren_cut(s.drop_first())
    }
}

proof fn lemma_paren_cut_from_scan(s: Seq<char>, i: int)
    requires
        0 <= i <= s.len(),
        forall|k: int| 0 <= k < i ==> s[k] != '(',
        i < s.len() ==> s[i] == '(',
    ensures
        spec_paren_cut(s) == i,
    decreases s.len(),
{
    if s.len() == 0 {
    } else if s[0] == '(' {
        assert(i == 0);
    } else {
        let t = s.drop_first();
        assert(forall|p: int| 0 <= p < t.len() ==> t[p] == s[p + 1]);
        assert(i >= 1);
        lemma_paren_cut_from_scan(t, i - 1);
    }
}

/// The page's date heading carries a parenthesised weekday suffix; this
/// returns the text before it (the whole text when no parenthesis occurs).
pub fn date_label_prefix(s: &str) -> (r: String)
    ensures
        r@ == s@.subrange(0, spec_paren_cut(s@)),
{
    let n = s.unicode_len();
    let mut i: usize = 0;
    while i < n
        invariant_except_break
            i <= n,
            n as nat == s@.len(),
            forall|k: int| 0 <= k < i ==> s@[k] != '(',
        ensures
            i <= n,
            n as nat == s@.len(),
            forall|k: int| 0 <= k < i ==> s@[k] != '(',
            i < n ==> s@[i as int] == '(',
        decreases n - i,
    {
        if s.get_char(i) == '(' {
            break;
        }
        i += 1;
    }
    proof {
        lemma_paren_cut_from_scan(s@, i as int);
    }
    let pre = s.substring_char(0, i);
    pre.to_owned()
}

} // verus!

//! Row selection in the collection and item lists: plain clicks select one
//! row (or clear it when clicked again), ctrl-clicks toggle a check mark,
//! shift-clicks check a range from an anchor row, and check marks follow
//! their rows when a list is re-sorted.
use vstd::prelude::*;
use crate::text::{lowercase, str_eq, to_lowercase};

verus! {

/// The selection state of one list.
pub struct Selection {
    /// One check mark per row, parallel to the list.
    pub checked: Vec<bool>,
    /// The row ranges extend from.
    pub anchor: Option<usize>,
    /// Whether any row is checked.
    pub multi: bool,
    /// The id of the selected (open) row.
    pub selected: Option<String>,
}

/// Whether any check mark is set.
pub open spec fn any_checked(c: Seq<bool>) -> bool {
    exists|i: int| 0 <= i < c.len() && #[trigger] c[i]
}

/// The first position of `id` among `ids`.
pub open spec fn first_position(ids: Seq<String>, id: Seq<char>) -> Option<int>
    decreases ids.len(),
{
    if ids.len() == 0 {
        None
    } else {
        match first_position(ids.drop_last(), id) {
            Some(k) => Some(k),
            None => if ids.last()@ == id {
                Some(ids.len() - 1)
            } else {
                None
            },
        }
    }
}

/// The row a shift-click extends from: the anchor when it is still a row,
/// else the selected row, else the clicked row itself.
pub open spec fn range_anchor(
    anchor: Option<usize>,
    selected: Option<String>,
    ids: Seq<String>,
    idx: int,
) -> int {
    match anchor {
        Some(a) if a < ids.len() => a as int,
        _ => match selected {
            Some(s) => match first_position(ids, s@) {
                Some(k) => k,
                None => idx,
            },
            None => idx,
        },
    }
}

/// Check marks after a shift-click on `idx` with anchor `a`: exactly the
/// visible rows between the two, inclusive.
pub open spec fn range_marks(n: int, a: int, idx: int, visible: Seq<bool>) -> Seq<bool> {
    let lo = if a <= idx { a } else { idx };
    let hi = if a <= idx { idx } else { a };
    Seq::new(n as nat, |i: int| lo <= i <= hi && visible[i])
}

/// The check marks a click starts from: the current ones when they match the
/// list, else none.
pub open spec fn start_marks(c: Seq<bool>, n: int) -> Seq<bool> {
    if c.len() == n {
        c
    } else {
        Seq::new(n as nat, |i: int| false)
    }
}

/// The state after a click on row `idx` of a list whose rows have the ids
/// `ids`; `visible` tells which rows a range may check. `clears_on_marks`
/// tells whether checking rows closes the selected row (as in the item list).
pub open spec fn clicked(
    old: Selection,
    new: Selection,
    ids: Seq<String>,
    visible: Seq<bool>,
    idx: int,
    ctrl: bool,
    shift: bool,
    clears_on_marks: bool,
) -> bool {
    let n = ids.len() as int;
    let c = start_marks(old.checked@, n);
    if n == 0 || idx >= n {
        new == old
    } else if ctrl {
        &&& new.checked@ == c.update(idx, !c[idx])
        &&& new.anchor == Some(idx as usize)
        &&& new.multi == any_checked(new.checked@)
        &&& new.selected == if clears_on_marks {
            None
        } else {
            old.selected
        }
    } else if shift {
        let a = range_anchor(old.anchor, old.selected, ids, idx);
        &&& new.checked@ == range_marks(n, a, idx, visible)
        &&& new.anchor == Some(a as usize)
        &&& new.multi
        &&& new.selected == if clears_on_marks {
            None
        } else {
            old.selected
        }
    } else {
        &&& new.checked@ == Seq::new(n as nat, |i: int| false)
        &&& new.anchor == Some(idx as usize)
        &&& !new.multi
        &&& new.selected == if old.selected matches Some(s) && s@ == ids[idx]@ {
            None
        } else {
            Some(ids[idx])
        }
    }
}

fn all_false(n: usize) -> (r: Vec<bool>)
    ensures
        r@ == Seq::new(n as nat, |i: int| false),
{
    let mut r: Vec<bool> = Vec::new();
    let mut i: usize = 0;
    while i < n
        invariant
            i <= n,
            r@ == Seq::new(i as nat, |k: int| false),
        decreases n - i,
    {
        r.push(false);
        i = i + 1;
        assert(r@ =~= Seq::new(i as nat, |k: int| false));
    }
    r
}

fn has_checked(c: &Vec<bool>) -> (r: bool)
    ensures
        r == any_checked(c@),
{
    let n: usize = c.len();
    let mut i: usize = 0;
    while i < n
        invariant
            n == c@.len(),
            i <= n,
            forall|k: int| 0 <= k < i ==> !c@[k],
        decreases n - i,
    {
        if c[i] {
            return true;
        }
        i = i + 1;
    }
    false
}

/// The first position of `id` among `ids`.
pub fn position_of(ids: &Vec<String>, id: &str) -> (r: Option<usize>)
    ensures
        r matches Some(k) ==> first_position(ids@, id@) == Some(k as int),
        r is None ==> first_position(ids@, id@) is None,
{
    let n: usize = ids.len();
    let mut k: usize = 0;
    while k < n
        invariant
            n == ids@.len(),
            k <= n,
            first_position(ids@.take(k as int), id@) is None,
        decreases n - k,
    {
        assert(ids@.take(k + 1).drop_last() =~= ids@.take(k as int));
        if str_eq(ids[k].as_str(), id) {
            proof {
                lemma_first_position_extend(ids@, id@, k as int + 1);
            }
            return Some(k);
        }
        k = k + 1;
    }
    assert(ids@.take(n as int) =~= ids@);
    None
}

/// Once found in a prefix, the first position is found in the whole.
proof fn lemma_first_position_extend(ids: Seq<String>, id: Seq<char>, m: int)
    requires
        0 <= m <= ids.len(),
        first_position(ids.take(m), id) is Some,
    ensures
        first_position(ids, id) == first_position(ids.take(m), id),
    decreases ids.len() - m,
{
    if m < ids.len() {
        assert(ids.take(m + 1).drop_last() =~= ids.take(m));
        lemma_first_position_extend(ids, id, m + 1);
    } else {
        assert(ids.take(m) =~= ids);
    }
}

/// Applies a click on row `idx` to the selection of a list whose rows have
/// the ids `ids`. Returns whether the click reached a row.
pub fn click(
    sel: &mut Selection,
    ids: &Vec<String>,
    visible: &Vec<bool>,
    idx: usize,
    ctrl: bool,
    shift: bool,
    clears_on_marks: bool,
) -> (r: bool)
    requires
        visible@.len() == ids@.len(),
    ensures
        clicked(*old(sel), *final(sel), ids@, visible@, idx as int, ctrl, shift, clears_on_marks),
        r == (idx < ids@.len()),
{
    let n: usize = ids.len();
    if n == 0 || idx >= n {
        return false;
    }
    if sel.checked.len() != n {
        sel.checked = all_false(n);
    }
    if ctrl {
        let flipped = !sel.checked[idx];
        sel.checked.set(idx, flipped);
        sel.anchor = Some(idx);
        sel.multi = has_checked(&sel.checked);
        if clears_on_marks {
            sel.selected = None;
        }
        return true;
    }
    if shift {
        let a: usize = match sel.anchor {
            Some(a) if a < n => a,
            _ => match &sel.selected {
                Some(s) => match position_of(ids, s.as_str()) {
                    Some(k) => k,
                    None => idx,
                },
                None => idx,
            },
        };
        let (lo, hi) = if a <= idx {
            (a, idx)
        } else {
            (idx, a)
        };
        let mut marks: Vec<bool> = Vec::new();
        let mut i: usize = 0;
        while i < n
            invariant
                n == ids@.len(),
                visible@.len() == n,
                i <= n,
                marks@ == Seq::new(i as nat, |k: int| lo <= k <= hi && visible@[k]),
            decreases n - i,
        {
            marks.push(lo <= i && i <= hi && visible[i]);
            i = i + 1;
            assert(marks@ =~= Seq::new(i as nat, |k: int| lo <= k <= hi && visible@[k]));
        }
        sel.checked = marks;
        sel.anchor = Some(a);
        sel.multi = true;
        if clears_on_marks {
            sel.selected = None;
        }
        return true;
    }
    sel.checked = all_false(n);
    sel.multi = false;
    sel.anchor = Some(idx);
    let same = match &sel.selected {
        Some(s) => str_eq(s.as_str(), ids[idx].as_str()),
        None => false,
    };
    if same {
        sel.selected = None;
    } else {
        sel.selected = Some(ids[idx].clone());
    }
    true
}

/// Whether `needle` occurs in `hay` as a contiguous run.
pub open spec fn occurs_in(hay: Seq<char>, needle: Seq<char>) -> bool {
    exists|k: int| 0 <= k <= hay.len() - needle.len() && #[trigger] hay.subrange(k, k + needle.len()) == needle
}

/// Whether `needle` occurs in `hay` (`str::contains` with a string pattern).
pub fn contains_text(hay: &str, needle: &str) -> (r: bool)
    ensures
        r == occurs_in(hay@, needle@),
{
    let n: usize = hay.unicode_len();
    let m: usize = needle.unicode_len();
    if m > n {
        return false;
    }
    let mut k: usize = 0;
    while k <= n - m
        invariant
            n == hay@.len(),
            m == needle@.len(),
            m <= n,
            k <= n - m + 1,
            forall|q: int| 0 <= q < k ==> #[trigger] hay@.subrange(q, q + m) != needle@,
        decreases n - m + 1 - k,
    {
        let mut j: usize = 0;
        let mut same: bool = true;
        while j < m
            invariant
                n == hay@.len(),
                m == needle@.len(),
                k + m <= n,
                j <= m,
                same == forall|t: int| 0 <= t < j ==> hay@[k + t] == needle@[t],
            decreases m - j,
        {
            if hay.get_char(k + j) != needle.get_char(j) {
                same = false;
            }
            j = j + 1;
        }
        if same {
            assert(hay@.subrange(k as int, k + m) =~= needle@);
            return true;
        }
        assert(hay@.subrange(k as int, k + m) != needle@) by {
            let t = choose|t: int| 0 <= t < m && hay@[k + t] != needle@[t];
            assert(hay@.subrange(k as int, k + m)[t] == hay@[k + t]);
        }
        k = k + 1;
    }
    false
}

/// A collection is shown under a search when the search is empty or its
/// lowercase name contains the lowercase search.
pub open spec fn matches_search(name: Seq<char>, search: Seq<char>) -> bool {
    lowercase(search).len() == 0 || occurs_in(lowercase(name), lowercase(search))
}

/// Whether a collection named `name` is shown under the search `search`.
pub fn name_matches_search(name: &str, search: &str) -> (r: bool)
    ensures
        r == matches_search(name@, search@),
{
    let q = to_lowercase(search);
    if q.unicode_len() == 0 {
        return true;
    }
    let l = to_lowercase(name);
    contains_text(l.as_str(), q.as_str())
}

/// Whether some id of `ids` equals `id`.
pub open spec fn among(ids: Seq<String>, id: Seq<char>) -> bool {
    exists|k: int| 0 <= k < ids.len() && #[trigger] ids[k]@ == id
}

/// The ids of the checked rows (rows beyond either list are ignored).
pub open spec fn checked_ids(ids: Seq<String>, c: Seq<bool>) -> Seq<String>
    decreases ids.len(),
{
    if ids.len() == 0 {
        Seq::empty()
    } else {
        let rest = checked_ids(ids.drop_last(), c);
        let k = ids.len() - 1;
        if k < c.len() && c[k] {
            rest.push(ids[k])
        } else {
            rest
        }
    }
}

/// Flips the check mark of row `i` (a row beyond the marks changes
/// nothing) and records whether any row is now checked.
pub fn toggle_check(sel: &mut Selection, i: usize)
    ensures
        final(sel).checked@ == if i < old(sel).checked@.len() {
            old(sel).checked@.update(i as int, !old(sel).checked@[i as int])
        } else {
            old(sel).checked@
        },
        final(sel).multi == any_checked(final(sel).checked@),
        final(sel).anchor == old(sel).anchor,
        final(sel).selected == old(sel).selected,
{
    if i < sel.checked.len() {
        let flipped = !sel.checked[i];
        sel.checked.set(i, flipped);
    }
    sel.multi = has_checked(&sel.checked);
}

/// Clears the check marks of a list of `n` rows.
pub fn clear_marks(sel: &mut Selection, n: usize)
    ensures
        final(sel).checked@ == Seq::new(n as nat, |i: int| false),
        !final(sel).multi,
        final(sel).anchor == old(sel).anchor,
        final(sel).selected == old(sel).selected,
{
    sel.checked = all_false(n);
    sel.multi = false;
}

/// Whether `id` is one of `ids`.
pub fn is_among(ids: &Vec<String>, id: &str) -> (r: bool)
    ensures
        r == among(ids@, id@),
{
    proof {
        lemma_first_position_among(ids@, id@);
    }
    position_of(ids, id).is_some()
}

/// The ids of the checked rows, in row order.
pub fn checked_row_ids(ids: &Vec<String>, checked: &Vec<bool>) -> (r: Vec<String>)
    ensures
        r@ == checked_ids(ids@, checked@),
{
    let n: usize = ids.len();
    let mut out: Vec<String> = Vec::new();
    let mut i: usize = 0;
    while i < n
        invariant
            n == ids@.len(),
            i <= n,
            out@ == checked_ids(ids@.take(i as int), checked@),
        decreases n - i,
    {
        assert(ids@.take(i + 1).drop_last() =~= ids@.take(i as int));
        if i < checked.len() && checked[i] {
            out.push(ids[i].clone());
        }
        i = i + 1;
    }
    assert(ids@.take(n as int) =~= ids@);
    out
}

/// Moves the check marks and the anchor along when a list is reordered:
/// `before` and `after` are the row ids before and after. A row is checked
/// afterwards exactly when a checked row had its id before; the anchor moves
/// to the selected row's new position.
pub fn follow_reorder(sel: &mut Selection, before: &Vec<String>, after: &Vec<String>)
    ensures
        final(sel).checked@.len() == after@.len(),
        forall|i: int|
            0 <= i < after@.len() ==> #[trigger] final(sel).checked@[i] == among(
                checked_ids(before@, old(sel).checked@),
                after@[i]@,
            ),
        final(sel).multi == any_checked(final(sel).checked@),
        final(sel).selected == old(sel).selected,
        final(sel).anchor == match old(sel).selected {
            Some(s) => match first_position(after@, s@) {
                Some(k) => Some(k as usize),
                None => None,
            },
            None => None,
        },
{
    let ids = checked_row_ids(before, &sel.checked);
    let na: usize = after.len();
    let mut marks: Vec<bool> = Vec::new();
    let mut j: usize = 0;
    while j < na
        invariant
            na == after@.len(),
            j <= na,
            marks@.len() == j,
            forall|k: int| 0 <= k < j ==> #[trigger] marks@[k] == among(ids@, after@[k]@),
        decreases na - j,
    {
        let m = position_of(&ids, after[j].as_str());
        proof {
            lemma_first_position_among(ids@, after@[j as int]@);
        }
        marks.push(m.is_some());
        j = j + 1;
    }
    sel.checked = marks;
    sel.multi = has_checked(&sel.checked);
    sel.anchor = match &sel.selected {
        Some(s) => position_of(after, s.as_str()),
        None => None,
    };
}

/// An id has a first position exactly when it is among the ids.
proof fn lemma_first_position_among(ids: Seq<String>, id: Seq<char>)
    ensures
        (first_position(ids, id) is Some) == among(ids, id),
    decreases ids.len(),
{
    if ids.len() > 0 {
        let init = ids.drop_last();
        lemma_first_position_among(init, id);
        if among(init, id) {
            let k = choose|k: int| 0 <= k < init.len() && #[trigger] init[k]@ == id;
            assert(ids[k] == init[k]);
        }
        if among(ids, id) && !among(init, id) {
            let k = choose|k: int| 0 <= k < ids.len() && #[trigger] ids[k]@ == id;
            if k < init.len() {
                assert(init[k] == ids[k]);
            }
        }
    }
}

/// A plain click opens a row that was not open, and a second plain click on
/// the same row closes it again; neither leaves a check mark behind.
pub proof fn lemma_click_twice_closes(
    s0: Selection,
    s1: Selection,
    s2: Selection,
    ids: Seq<String>,
    visible: Seq<bool>,
    idx: int,
    clears_on_marks: bool,
)
    requires
        0 <= idx < ids.len(),
        !(s0.selected matches Some(s) && s@ == ids[idx]@),
        clicked(s0, s1, ids, visible, idx, false, false, clears_on_marks),
        clicked(s1, s2, ids, visible, idx, false, false, clears_on_marks),
    ensures
        s1.selected == Some(ids[idx]),
        s2.selected is None,
        !any_checked(s2.checked@),
{
}

/// Two ctrl-clicks on the same row leave the check marks as they were.
pub proof fn lemma_ctrl_click_twice_restores(
    s0: Selection,
    s1: Selection,
    s2: Selection,
    ids: Seq<String>,
    visible: Seq<bool>,
    idx: int,
    clears_on_marks: bool,
)
    requires
        0 <= idx < ids.len(),
        s0.checked@.len() == ids.len(),
        clicked(s0, s1, ids, visible, idx, true, false, clears_on_marks),
        clicked(s1, s2, ids, visible, idx, true, false, clears_on_marks),
    ensures
        s2.checked@ == s0.checked@,
{
    assert(s2.checked@ =~= s0.checked@);
}

} // verus!

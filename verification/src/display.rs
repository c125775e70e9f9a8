//! Shaping of text for display and for the numeric date editors.
use vstd::prelude::*;
use crate::text::{is_digit, trim_trailing_newlines, str_eq, without_trailing_newlines};

verus! {

/// The decimal digits of `s`, in order.
pub open spec fn digits_of(s: Seq<char>) -> Seq<char>
    decreases s.len(),
{
    if s.len() == 0 {
        Seq::empty()
    } else if is_digit(s.last()) {
        digits_of(s.drop_last()).push(s.last())
    } else {
        digits_of(s.drop_last())
    }
}

/// At most the first `max` elements of `s`.
pub open spec fn at_most(s: Seq<char>, max: nat) -> Seq<char> {
    if s.len() <= max {
        s
    } else {
        s.take(max as int)
    }
}

/// What a numeric editor keeps of its text: the digits only, and no more than
/// `max` of them.
pub fn clamp_numeric(raw: &str, max: usize) -> (r: String)
    ensures
        r@ == at_most(digits_of(raw@), max as nat),
{
    let n: usize = raw.unicode_len();
    let mut out = String::new();
    let mut i: usize = 0;
    while i < n
        invariant
            n == raw@.len(),
            i <= n,
            out@ == at_most(digits_of(raw@.take(i as int)), max as nat),
        decreases n - i,
    {
        let c = raw.get_char(i);
        let ghost before = digits_of(raw@.take(i as int));
        assert(raw@.take(i + 1).drop_last() =~= raw@.take(i as int));
        assert(raw@.take(i + 1).last() == c);
        if '0' <= c && c <= '9' {
            if out.unicode_len() < max {
                out.push(c);
            } else {
                assert(before.push(c).take(max as int) =~= before.take(max as int));
            }
        }
        i = i + 1;
    }
    assert(raw@.take(n as int) =~= raw@);
    out
}

/// `s` with every line break replaced by a space.
pub open spec fn one_line(s: Seq<char>) -> Seq<char> {
    s.map_values(|c: char| if c == '\n' { ' ' } else { c })
}

/// A single display line of roughly `max` characters: line breaks become
/// spaces, and a line longer than `max` keeps its first `max - 3` characters
/// (none when `max < 3`) followed by three dots.
pub open spec fn truncated_line(s: Seq<char>, max: nat) -> Seq<char> {
    let one = one_line(s);
    if one.len() > max {
        one.take(if max >= 3 { max - 3 } else { 0 }) + seq!['.', '.', '.']
    } else {
        one
    }
}

/// Clamps `s` to one display line of about `max` characters.
pub fn truncate_one_line(s: &str, max: usize) -> (r: String)
    ensures
        r@ == truncated_line(s@, max as nat),
{
    let n: usize = s.unicode_len();
    let keep: usize = if n > max {
        max.saturating_sub(3)
    } else {
        n
    };
    let mut out = String::new();
    let mut i: usize = 0;
    while i < keep
        invariant
            n == s@.len(),
            keep <= n,
            i <= keep,
            out@ =~= one_line(s@).take(i as int),
        decreases keep - i,
    {
        let c = s.get_char(i);
        if c == '\n' {
            out.push(' ');
        } else {
            out.push(c);
        }
        i = i + 1;
    }
    if n > max {
        out.push('.');
        out.push('.');
        out.push('.');
    } else {
        assert(one_line(s@).take(n as int) =~= one_line(s@));
    }
    out
}

/// The digits of any text are all digits.
proof fn lemma_digits_of_all_digits(s: Seq<char>)
    ensures
        forall|i: int| 0 <= i < digits_of(s).len() ==> is_digit(#[trigger] digits_of(s)[i]),
    decreases s.len(),
{
    if s.len() > 0 {
        let t = s.drop_last();
        lemma_digits_of_all_digits(t);
        let d = digits_of(s);
        if is_digit(s.last()) {
            assert forall|i: int| 0 <= i < d.len() implies is_digit(#[trigger] d[i]) by {
                if i < digits_of(t).len() {
                    assert(d[i] == digits_of(t)[i]);
                }
            }
        }
    }
}

/// A text made of digits only is its own digits.
proof fn lemma_digits_of_digits(s: Seq<char>)
    requires
        forall|i: int| 0 <= i < s.len() ==> is_digit(#[trigger] s[i]),
    ensures
        digits_of(s) == s,
    decreases s.len(),
{
    if s.len() > 0 {
        assert forall|i: int| 0 <= i < s.drop_last().len() implies is_digit(
            #[trigger] s.drop_last()[i],
        ) by {
            assert(s.drop_last()[i] == s[i]);
        }
        lemma_digits_of_digits(s.drop_last());
        assert(is_digit(s[s.len() - 1]));
        assert(s.drop_last().push(s.last()) =~= s);
    }
}

/// Clamping a numeric editor's text is stable: what it keeps holds only
/// digits, no more than `max` of them, and clamping it again keeps it whole.
pub proof fn lemma_clamp_numeric_stable(raw: Seq<char>, max: nat)
    ensures
        at_most(digits_of(raw), max).len() <= max,
        forall|i: int|
            0 <= i < at_most(digits_of(raw), max).len() ==> is_digit(
                #[trigger] at_most(digits_of(raw), max)[i],
            ),
        at_most(digits_of(at_most(digits_of(raw), max)), max) == at_most(digits_of(raw), max),
{
    let d = digits_of(raw);
    let k = at_most(d, max);
    lemma_digits_of_all_digits(raw);
    assert forall|i: int| 0 <= i < k.len() implies is_digit(#[trigger] k[i]) by {
        assert(k[i] == d[i]);
    }
    lemma_digits_of_digits(k);
}

/// A truncated line holds no line break and, for `max >= 3`, no more than
/// `max` characters.
pub proof fn lemma_truncated_line_shape(s: Seq<char>, max: nat)
    ensures
        !truncated_line(s, max).contains('\n'),
        max >= 3 ==> truncated_line(s, max).len() <= max,
{
    let one = one_line(s);
    let t = truncated_line(s, max);
    assert(!one.contains('\n')) by {
        if one.contains('\n') {
            let k = choose|k: int| 0 <= k < one.len() && one[k] == '\n';
            assert(one[k] == (if s[k] == '\n' { ' ' } else { s[k] }));
        }
    }
    if t.contains('\n') {
        let k = choose|k: int| 0 <= k < t.len() && t[k] == '\n';
        if one.len() > max {
            let keep: int = if max >= 3 { max - 3 } else { 0 };
            if k < keep {
                assert(t[k] == one[k]);
            } else {
                assert(t[k] == '.');
            }
        } else {
            assert(t[k] == one[k]);
        }
    }
}

/// What a numeric editor needs after a keystroke: `Some(kept)` when its text
/// (without trailing newlines) is not already what clamping keeps, and it is
/// to be rebuilt with `kept`, the caret at the end; `None` when it is left
/// alone, so that a valid keystroke does not move the caret.
pub open spec fn numeric_rebuild(text: Seq<char>, max: nat) -> Option<Seq<char>> {
    let kept = at_most(digits_of(text), max);
    if kept == without_trailing_newlines(text) {
        None
    } else {
        Some(kept)
    }
}

/// The rebuild a numeric editor with text `text`, limited to `max` digits,
/// needs (see `numeric_rebuild`).
pub fn numeric_editor_rebuild(text: &str, max: usize) -> (r: Option<String>)
    ensures
        match r {
            Some(k) => numeric_rebuild(text@, max as nat) == Some(k@),
            None => numeric_rebuild(text@, max as nat) is None,
        },
{
    let kept = clamp_numeric(text, max);
    let current = trim_trailing_newlines(text);
    if str_eq(kept.as_str(), current.as_str()) {
        None
    } else {
        Some(kept)
    }
}

/// Digits only: no newline to trim at the end.
proof fn lemma_digits_keep_newlines(s: Seq<char>)
    requires
        forall|i: int| 0 <= i < s.len() ==> is_digit(#[trigger] s[i]),
    ensures
        without_trailing_newlines(s) == s,
{
    if s.len() > 0 {
        assert(is_digit(s[s.len() - 1]));
    }
}

/// A numeric editor settles: once rebuilt with the kept text, it needs no
/// further rebuild.
pub proof fn lemma_numeric_rebuild_settles(text: Seq<char>, max: nat)
    ensures
        numeric_rebuild(text, max) matches Some(k) ==> numeric_rebuild(k, max) is None,
{
    let k = at_most(digits_of(text), max);
    lemma_clamp_numeric_stable(text, max);
    lemma_digits_keep_newlines(k);
}

/// Characters drawn about one em wide: CJK ideographs and symbols, kana,
/// Hangul, fullwidth forms and emoji. Others are drawn narrower.
pub open spec fn is_wide(c: char) -> bool {
    let u = c as u32;
    (0x1100 <= u <= 0x115F) || (0x2E80 <= u <= 0x303E) || (0x3041 <= u <= 0x33FF) || (0x3400 <= u
        <= 0x4DBF) || (0x4E00 <= u <= 0x9FFF) || (0xA000 <= u <= 0xA4CF) || (0xAC00 <= u <= 0xD7A3)
        || (0xF900 <= u <= 0xFAFF) || (0xFE30 <= u <= 0xFE4F) || (0xFF00 <= u <= 0xFF60) || (0xFFE0
        <= u <= 0xFFE6) || (0x1F000 <= u <= 0x1FAFF) || (0x20000 <= u <= 0x3FFFD)
}

/// Whether `c` is drawn about one em wide (see `is_wide`).
pub fn is_wide_char(c: char) -> (r: bool)
    ensures
        r == is_wide(c),
{
    let u: u32 = c as u32;
    (0x1100 <= u && u <= 0x115F) || (0x2E80 <= u && u <= 0x303E) || (0x3041 <= u && u <= 0x33FF)
        || (0x3400 <= u && u <= 0x4DBF) || (0x4E00 <= u && u <= 0x9FFF) || (0xA000 <= u && u
        <= 0xA4CF) || (0xAC00 <= u && u <= 0xD7A3) || (0xF900 <= u && u <= 0xFAFF) || (0xFE30 <= u
        && u <= 0xFE4F) || (0xFF00 <= u && u <= 0xFF60) || (0xFFE0 <= u && u <= 0xFFE6) || (0x1F000
        <= u && u <= 0x1FAFF) || (0x20000 <= u && u <= 0x3FFFD)
}

} // verus!

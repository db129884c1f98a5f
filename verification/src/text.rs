//! Byte-level text primitives over UTF-8 encoded text: substring search,
//! whitespace trimming and line splitting.

use vstd::prelude::*;

verus! {

/// Whether `pat` occurs in `text` at byte offset `i`.
pub open spec fn occurs_at(text: Seq<u8>, pat: Seq<u8>, i: int) -> bool {
    0 <= i && i + pat.len() <= text.len() && text.subrange(i, i + pat.len()) == pat
}

/// The first offset at or after `from` where `pat` occurs.
pub open spec fn first_occurrence(text: Seq<u8>, pat: Seq<u8>, from: int) -> Option<int>
    decreases text.len() + 1 - from,
{
    if from < 0 || from + pat.len() > text.len() {
        None
    } else if occurs_at(text, pat, from) {
        Some(from)
    } else {
        first_occurrence(text, pat, from + 1)
    }
}

/// Whether `pat` occurs anywhere in `text`.
pub open spec fn contains(text: Seq<u8>, pat: Seq<u8>) -> bool {
    first_occurrence(text, pat, 0) is Some
}

/// The first occurrence is an occurrence, and none comes before it.
pub proof fn lemma_first_occurrence(text: Seq<u8>, pat: Seq<u8>, from: int)
    requires
        from >= 0,
    ensures
        first_occurrence(text, pat, from) matches Some(i) ==> from <= i && occurs_at(text, pat, i)
            && forall|j: int| from <= j < i ==> !occurs_at(text, pat, j),
        first_occurrence(text, pat, from) is None ==> forall|j: int| from <= j ==> !occurs_at(text, pat, j),
    decreases text.len() + 1 - from,
{
    if from + pat.len() > text.len() {
    } else if occurs_at(text, pat, from) {
    } else {
        lemma_first_occurrence(text, pat, from + 1);
    }
}

/// Whether `pat` occurs in `text` at `i`.
pub fn matches_at(text: &[u8], pat: &[u8], i: usize) -> (r: bool)
    ensures
        r == occurs_at(text@, pat@, i as int),
{
    if i > text.len() || pat.len() > text.len() - i {
        return false;
    }
    let end = i + pat.len();
    let mut k: usize = 0;
    while k < pat.len()
        invariant
            end == i + pat@.len(),
            i + pat@.len() <= text@.len(),
            k <= pat@.len(),
            forall|m: int| 0 <= m < k ==> text@[i + m] == pat@[m],
        decreases pat@.len() - k,
    {
        if text[i + k] != pat[k] {
            proof {
                assert(text@.subrange(i as int, i + pat@.len())[k as int] != pat@[k as int]);
            }
            return false;
        }
        k += 1;
    }
    proof {
        assert(text@.subrange(i as int, i + pat@.len()) =~= pat@);
    }
    true
}

/// The first offset at or after `from` where `pat` occurs.
pub fn find_from(text: &[u8], pat: &[u8], from: usize) -> (r: Option<usize>)
    ensures
        r is None <==> first_occurrence(text@, pat@, from as int) is None,
        r matches Some(k) ==> first_occurrence(text@, pat@, from as int) == Some(k as int),
{
    let mut i = from;
    while i <= text.len() && pat.len() <= text.len() - i
        invariant
            from <= i,
            first_occurrence(text@, pat@, from as int) == first_occurrence(text@, pat@, i as int),
        decreases text@.len() + 1 - i,
    {
        if matches_at(text, pat, i) {
            return Some(i);
        }
        if i == text.len() {
            proof {
                assert(first_occurrence(text@, pat@, i + 1) is None);
            }
            return None;
        }
        i += 1;
    }
    None
}

/// Whether `pat` occurs anywhere in `text`.
pub fn contains_bytes(text: &[u8], pat: &[u8]) -> (r: bool)
    ensures
        r == contains(text@, pat@),
{
    find_from(text, pat, 0).is_some()
}

/// Whether `text` starts with `pat`.
pub open spec fn starts_with(text: Seq<u8>, pat: Seq<u8>) -> bool {
    occurs_at(text, pat, 0)
}

/// Byte length of the UTF-8 encoded whitespace character (Unicode
/// `White_Space`) that starts at `i`, or 0 where none starts there.
pub open spec fn ws_len_at(b: Seq<u8>, i: int) -> int {
    if i < 0 || i >= b.len() {
        0
    } else if (0x09 <= b[i] <= 0x0D) || b[i] == 0x20 {
        1
    } else if i + 1 < b.len() && b[i] == 0xC2 && (b[i + 1] == 0x85 || b[i + 1] == 0xA0) {
        2
    } else if i + 2 < b.len() && ((b[i] == 0xE1 && b[i + 1] == 0x9A && b[i + 2] == 0x80) || (
    b[i] == 0xE2 && b[i + 1] == 0x80 && ((0x80 <= b[i + 2] <= 0x8A) || b[i + 2] == 0xA8
        || b[i + 2] == 0xA9 || b[i + 2] == 0xAF)) || (b[i] == 0xE2 && b[i + 1] == 0x81 && b[i
        + 2] == 0x9F) || (b[i] == 0xE3 && b[i + 1] == 0x80 && b[i + 2] == 0x80)) {
        3
    } else {
        0
    }
}

/// Byte length of the whitespace character that ends right before `e` and
/// starts at or after `s`, or 0.
pub open spec fn ws_len_before(b: Seq<u8>, s: int, e: int) -> int {
    if e - 1 >= s && ws_len_at(b, e - 1) == 1 {
        1
    } else if e - 2 >= s && ws_len_at(b, e - 2) == 2 {
        2
    } else if e - 3 >= s && ws_len_at(b, e - 3) == 3 {
        3
    } else {
        0
    }
}

/// Where the text in `[s, e)` starts once leading whitespace is skipped.
pub open spec fn trim_start_at(b: Seq<u8>, s: int, e: int) -> int
    decreases e - s,
{
    if s < e && 0 < ws_len_at(b, s) && s + ws_len_at(b, s) <= e {
        trim_start_at(b, s + ws_len_at(b, s), e)
    } else {
        s
    }
}

/// Where the text in `[s, e)` ends once trailing whitespace is dropped.
pub open spec fn trim_end_at(b: Seq<u8>, s: int, e: int) -> int
    decreases e - s,
{
    if s < e && ws_len_before(b, s, e) > 0 {
        trim_end_at(b, s, e - ws_len_before(b, s, e))
    } else {
        e
    }
}

pub fn ws_len_exec(b: &[u8], i: usize) -> (r: usize)
    ensures
        r == ws_len_at(b@, i as int),
{
    if i >= b.len() {
        0
    } else if (0x09 <= b[i] && b[i] <= 0x0D) || b[i] == 0x20 {
        1
    } else if b.len() - i > 1 && b[i] == 0xC2 && (b[i + 1] == 0x85 || b[i + 1] == 0xA0) {
        2
    } else if b.len() - i > 2 && ((b[i] == 0xE1 && b[i + 1] == 0x9A && b[i + 2] == 0x80) || (
    b[i] == 0xE2 && b[i + 1] == 0x80 && ((0x80 <= b[i + 2] && b[i + 2] <= 0x8A) || b[i + 2]
        == 0xA8 || b[i + 2] == 0xA9 || b[i + 2] == 0xAF)) || (b[i] == 0xE2 && b[i + 1] == 0x81
        && b[i + 2] == 0x9F) || (b[i] == 0xE3 && b[i + 1] == 0x80 && b[i + 2] == 0x80)) {
        3
    } else {
        0
    }
}

/// Skips the whitespace at the start of `[s, e)`.
pub fn trim_start(b: &[u8], s: usize, e: usize) -> (r: usize)
    requires
        s <= e <= b@.len(),
    ensures
        r == trim_start_at(b@, s as int, e as int),
        s <= r <= e,
{
    let mut i = s;
    while i < e
        invariant
            s <= i <= e,
            e <= b@.len(),
            trim_start_at(b@, s as int, e as int) == trim_start_at(b@, i as int, e as int),
        decreases e - i,
    {
        let w = ws_len_exec(b, i);
        if w == 0 || w > e - i {
            return i;
        }
        i = i + w;
    }
    i
}

/// Drops the whitespace at the end of `[s, e)`.
pub fn trim_end(b: &[u8], s: usize, e: usize) -> (r: usize)
    requires
        s <= e <= b@.len(),
    ensures
        r == trim_end_at(b@, s as int, e as int),
        s <= r <= e,
{
    let mut j = e;
    while s < j
        invariant
            s <= j <= e,
            e <= b@.len(),
            trim_end_at(b@, s as int, e as int) == trim_end_at(b@, s as int, j as int),
        decreases j - s,
    {
        let w = if j - 1 >= s && ws_len_exec(b, j - 1) == 1 {
            1
        } else if j - s >= 2 && ws_len_exec(b, j - 2) == 2 {
            2
        } else if j - s >= 3 && ws_len_exec(b, j - 3) == 3 {
            3
        } else {
            0
        };
        if w == 0 {
            return j;
        }
        j = j - w;
    }
    j
}

/// The end of the line that starts at `s`: the next `\n`, or the end of the text.
pub open spec fn line_end(b: Seq<u8>, s: int) -> int
    decreases b.len() - s,
{
    if s < 0 || s >= b.len() || b[s] == 0x0A {
        if s < 0 { 0 } else if s > b.len() { b.len() as int } else { s }
    } else {
        line_end(b, s + 1)
    }
}

/// The end of a line's content: a `\r` right before its `\n` is dropped;
/// a final line without a `\n` keeps all of its bytes.
pub open spec fn content_end(b: Seq<u8>, s: int, e: int) -> int {
    if e < b.len() && e > s && b[e - 1] == 0x0D { e - 1 } else { e }
}

/// The lines of `b[s..]`, as byte ranges without their line terminators
/// (`\n`, or `\r\n`), as `str::lines` splits them: a final line break ends
/// the last line and starts none.
pub open spec fn lines_from(b: Seq<u8>, s: int) -> Seq<(int, int)>
    decreases b.len() + 1 - s,
{
    if s < 0 || s >= b.len() {
        Seq::empty()
    } else {
        let e = line_end(b, s);
        if e < s || e > b.len() {
            Seq::empty()
        } else {
            seq![(s, content_end(b, s, e))] + lines_from(b, e + 1)
        }
    }
}

/// The lines of `b`.
pub open spec fn lines(b: Seq<u8>) -> Seq<(int, int)> {
    lines_from(b, 0)
}

/// A line ends at a `\n` or at the end of the text, not before its start.
pub proof fn lemma_line_end(b: Seq<u8>, s: int)
    requires
        0 <= s <= b.len(),
    ensures
        s <= line_end(b, s) <= b.len(),
        line_end(b, s) < b.len() ==> b[line_end(b, s)] == 0x0A,
        forall|k: int| s <= k < line_end(b, s) ==> b[k] != 0x0A,
    decreases b.len() - s,
{
    if s >= b.len() || b[s] == 0x0A {
    } else {
        lemma_line_end(b, s + 1);
    }
}

/// The end of the line that starts at `s`.
pub fn find_line_end(b: &[u8], s: usize) -> (r: usize)
    requires
        s <= b@.len(),
    ensures
        r == line_end(b@, s as int),
        s <= r <= b@.len(),
{
    let mut i = s;
    while i < b.len() && b[i] != 0x0A
        invariant
            s <= i <= b@.len(),
            line_end(b@, s as int) == line_end(b@, i as int),
        decreases b@.len() - i,
    {
        i += 1;
    }
    i
}

/// The lines of `b`, as byte ranges without their terminators.
pub fn line_ranges(b: &[u8]) -> (r: Vec<(usize, usize)>)
    ensures
        r@.len() == lines(b@).len(),
        forall|k: int| 0 <= k < r@.len() ==> r@[k].0 as int == lines(b@)[k].0 && r@[k].1 as int
            == lines(b@)[k].1,
        forall|k: int| 0 <= k < r@.len() ==> (#[trigger] r@[k]).0 <= r@[k].1 <= b@.len(),
{
    let mut out: Vec<(usize, usize)> = Vec::new();
    let mut s: usize = 0;
    while s < b.len()
        invariant
            s <= b@.len(),
            lines(b@) == Seq::new(out@.len() as nat, |k: int| (out@[k].0 as int, out@[k].1 as int)) + lines_from(b@, s as int),
            forall|k: int| 0 <= k < out@.len() ==> (#[trigger] out@[k]).0 <= out@[k].1 <= b@.len(),
        decreases b@.len() - s,
    {
        let e = find_line_end(b, s);
        let c = if e < b.len() && e > s && b[e - 1] == 0x0D { e - 1 } else { e };
        let ghost before = out@;
        out.push((s, c));
        proof {
            let old_prefix = Seq::new(before.len() as nat, |k: int| (before[k].0 as int, before[k].1 as int));
            let new_prefix = Seq::new(out@.len() as nat, |k: int| (out@[k].0 as int, out@[k].1 as int));
            assert(new_prefix =~= old_prefix + seq![(s as int, c as int)]);
            assert(lines_from(b@, s as int) == seq![(s as int, c as int)] + lines_from(b@, e + 1));
            assert(new_prefix + lines_from(b@, e + 1) =~= old_prefix + lines_from(b@, s as int));
        }
        if e >= b.len() {
            s = b.len();
            proof {
                assert(lines_from(b@, b@.len() as int) =~= Seq::<(int, int)>::empty());
                assert(lines_from(b@, e + 1) =~= Seq::<(int, int)>::empty());
            }
        } else {
            s = e + 1;
        }
    }
    proof {
        assert(lines_from(b@, s as int) =~= Seq::<(int, int)>::empty());
        let p = Seq::new(out@.len() as nat, |k: int| (out@[k].0 as int, out@[k].1 as int));
        assert(p + Seq::<(int, int)>::empty() =~= p);
    }
    out
}

} // verus!

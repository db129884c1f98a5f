//! Link targets of Markdown documents: inline links and reference
//! definitions outside fenced code blocks, and which of them point at a
//! file of the repository.

use vstd::prelude::*;
use vstd::string::StringSliceAdditionalSpecFns;
use crate::text::{occurs_at, first_occurrence, lemma_first_occurrence, find_from, ws_len_at, ws_len_exec,
    trim_start_at, trim_end_at, trim_start, trim_end, lines, line_ranges, matches_at};

verus! {

/// Where the first whitespace character of `[k, e)` starts, or `e`.
pub open spec fn first_ws_from(b: Seq<u8>, k: int, e: int) -> int
    decreases e - k,
{
    if k >= e {
        e
    } else if ws_len_at(b.take(e), k) > 0 {
        k
    } else {
        first_ws_from(b, k + 1, e)
    }
}

/// The target of a raw link destination in `[s, e)`: after trimming, the
/// text between `<` and the next `>`, or else the first run of
/// non-whitespace; `None` where that is empty.
pub open spec fn normalized_target(b: Seq<u8>, s: int, e: int) -> Option<(int, int)> {
    let s1 = trim_start_at(b, s, e);
    let e1 = trim_end_at(b, s1, e);
    if s1 < e1 && b[s1] == 0x3C {
        match first_occurrence(b.take(e1), seq![0x3Eu8], s1 + 1) {
            None => None,
            Some(g) => if s1 + 1 < g { Some((s1 + 1, g)) } else { None },
        }
    } else if s1 < e1 {
        let t = first_ws_from(b, s1, e1);
        if s1 < t { Some((s1, t)) } else { None }
    } else {
        None
    }
}

fn first_ws(b: &[u8], k: usize, e: usize) -> (r: usize)
    requires
        k <= e <= b@.len(),
    ensures
        r == first_ws_from(b@, k as int, e as int),
        k <= r <= e,
{
    let prefix = vstd::slice::slice_subrange(b, 0, e);
    proof {
        assert(prefix@ =~= b@.take(e as int));
    }
    let mut i = k;
    while i < e
        invariant
            k <= i <= e,
            prefix@ == b@.take(e as int),
            first_ws_from(b@, k as int, e as int) == first_ws_from(b@, i as int, e as int),
        decreases e - i,
    {
        if ws_len_exec(prefix, i) > 0 {
            return i;
        }
        i += 1;
    }
    i
}

/// The target of the raw link destination in `[s, e)`.
pub fn normalized_markdown_target(b: &[u8], s: usize, e: usize) -> (r: Option<(usize, usize)>)
    requires
        s <= e <= b@.len(),
    ensures
        match normalized_target(b@, s as int, e as int) {
            None => r is None,
            Some((x, y)) => r == Some((x as usize, y as usize)),
        },
        r matches Some((x, y)) ==> s <= x < y <= e,
        normalized_target(b@, s as int, e as int) matches Some((x, y)) ==> s <= x < y <= e,
{
    let s1 = trim_start(b, s, e);
    let e1 = trim_end(b, s1, e);
    if s1 < e1 && b[s1] == 0x3C {
        let prefix = vstd::slice::slice_subrange(b, 0, e1);
        let close: [u8; 1] = [0x3E];
        proof {
            assert(prefix@ =~= b@.take(e1 as int));
            assert(close@ =~= seq![0x3Eu8]);
            lemma_first_occurrence(prefix@, close@, s1 + 1);
        }
        match find_from(prefix, &close, s1 + 1) {
            None => None,
            Some(g) => if s1 + 1 < g {
                Some((s1 + 1, g))
            } else {
                None
            },
        }
    } else if s1 < e1 {
        let t = first_ws(b, s1, e1);
        if s1 < t {
            Some((s1, t))
        } else {
            None
        }
    } else {
        None
    }
}

/// The targets of the inline links `](target)` of the line `[cursor, e)`,
/// left to right; each search resumes after the closing `)`.
pub open spec fn inline_targets_from(b: Seq<u8>, cursor: int, e: int) -> Seq<(int, int)>
    decreases e + 1 - cursor,
{
    let lb = b.take(e);
    match first_occurrence(lb, seq![0x5Du8, 0x28u8], cursor) {
        None => Seq::empty(),
        Some(p) => match first_occurrence(lb, seq![0x29u8], p + 2) {
            None => Seq::empty(),
            Some(q) => if q < cursor || q > e {
                Seq::empty()
            } else {
                (match normalized_target(b, p + 2, q) {
                    Some(t) => seq![t],
                    None => Seq::empty(),
                }) + inline_targets_from(b, q + 1, e)
            },
        },
    }
}

/// The targets of the inline links of the line `[s, e)`.
pub fn inline_link_targets(b: &[u8], s: usize, e: usize) -> (r: Vec<(usize, usize)>)
    requires
        s <= e <= b@.len(),
    ensures
        r@.len() == inline_targets_from(b@, s as int, e as int).len(),
        forall|k: int| 0 <= k < r@.len() ==> (#[trigger] r@[k]).0 as int == inline_targets_from(b@, s as int, e as int)[k].0
            && r@[k].1 as int == inline_targets_from(b@, s as int, e as int)[k].1,
        forall|k: int| 0 <= k < r@.len() ==> (#[trigger] r@[k]).0 < r@[k].1 <= e,
{
    let line = vstd::slice::slice_subrange(b, 0, e);
    let open: [u8; 2] = [0x5D, 0x28];
    let close: [u8; 1] = [0x29];
    proof {
        assert(line@ =~= b@.take(e as int));
        assert(open@ =~= seq![0x5Du8, 0x28u8]);
        assert(close@ =~= seq![0x29u8]);
    }
    let ghost all = inline_targets_from(b@, s as int, e as int);
    let mut out: Vec<(usize, usize)> = Vec::new();
    let mut cursor = s;
    loop
        invariant
            s <= cursor <= e + 1,
            all == inline_targets_from(b@, s as int, e as int),
            e <= b@.len(),
            line@ == b@.take(e as int),
            open@ == seq![0x5Du8, 0x28u8],
            close@ == seq![0x29u8],
            all == Seq::new(out@.len() as nat, |k: int| (out@[k].0 as int, out@[k].1 as int))
                + inline_targets_from(b@, cursor as int, e as int),
            forall|k: int| 0 <= k < out@.len() ==> (#[trigger] out@[k]).0 < out@[k].1 <= e,
        decreases e + 1 - cursor,
    {
        let ghost prefix = Seq::new(out@.len() as nat, |k: int| (out@[k].0 as int, out@[k].1 as int));
        proof {
            lemma_first_occurrence(line@, open@, cursor as int);
        }
        let p = match find_from(line, &open, cursor) {
            None => {
                proof {
                    assert(inline_targets_from(b@, cursor as int, e as int) =~= Seq::<(int, int)>::empty());
                    assert(prefix + Seq::<(int, int)>::empty() =~= prefix);
                }
                return out;
            },
            Some(p) => p,
        };
        assert(occurs_at(line@, open@, p as int));
        proof {
            lemma_first_occurrence(line@, close@, p + 2);
        }
        let q = match find_from(line, &close, p + 2) {
            None => {
                proof {
                    assert(inline_targets_from(b@, cursor as int, e as int) =~= Seq::<(int, int)>::empty());
                    assert(prefix + Seq::<(int, int)>::empty() =~= prefix);
                }
                return out;
            },
            Some(q) => q,
        };
        assert(occurs_at(line@, close@, q as int));
        let ghost piece = match normalized_target(b@, p + 2, q as int) {
            Some(t) => seq![t],
            None => Seq::<(int, int)>::empty(),
        };
        match normalized_markdown_target(b, p + 2, q) {
            Some(t) => {
                out.push(t);
            },
            None => {},
        }
        proof {
            let np = Seq::new(out@.len() as nat, |k: int| (out@[k].0 as int, out@[k].1 as int));
            assert(np =~= prefix + piece);
            assert(inline_targets_from(b@, cursor as int, e as int) == piece + inline_targets_from(b@, q + 1, e as int));
            assert(np + inline_targets_from(b@, q + 1, e as int) =~= prefix + (piece + inline_targets_from(b@, q + 1, e as int)));
        }
        cursor = q + 1;
    }
}

/// The target of a reference definition `[label]: target` on the line
/// `[s, e)`; footnotes (`[^...]`) define none.
pub open spec fn reference_target(b: Seq<u8>, s: int, e: int) -> Option<(int, int)> {
    let t = trim_start_at(b, s, e);
    if t < e && b[t] == 0x5B {
        if t + 1 < e && b[t + 1] == 0x5E {
            None
        } else {
            match first_occurrence(b.take(e), seq![0x5Du8, 0x3Au8], t + 1) {
                None => None,
                Some(m) => if m + 2 <= e { normalized_target(b, m + 2, e) } else { None },
            }
        }
    } else {
        None
    }
}

/// The target of the reference definition on the line `[s, e)`, if any.
pub fn reference_definition_target(b: &[u8], s: usize, e: usize) -> (r: Option<(usize, usize)>)
    requires
        s <= e <= b@.len(),
    ensures
        match reference_target(b@, s as int, e as int) {
            None => r is None,
            Some((x, y)) => r == Some((x as usize, y as usize)),
        },
        r matches Some((x, y)) ==> s <= x < y <= e,
        reference_target(b@, s as int, e as int) matches Some((x, y)) ==> s <= x < y <= e,
{
    let t = trim_start(b, s, e);
    if t < e && b[t] == 0x5B {
        if t + 1 < e && b[t + 1] == 0x5E {
            return None;
        }
        let line = vstd::slice::slice_subrange(b, 0, e);
        let marker: [u8; 2] = [0x5D, 0x3A];
        proof {
            assert(line@ =~= b@.take(e as int));
            assert(marker@ =~= seq![0x5Du8, 0x3Au8]);
            lemma_first_occurrence(line@, marker@, t + 1);
        }
        match find_from(line, &marker, t + 1) {
            None => None,
            Some(m) => {
                assert(occurs_at(line@, marker@, m as int));
                normalized_markdown_target(b, m + 2, e)
            },
        }
    } else {
        None
    }
}

/// The repository-local path that a link target `[s, e)` names: the part
/// before any `#`, unless the target is an anchor, a web, mail or data
/// address, or the path is empty or absolute (starts with `/`).
pub open spec fn local_target(b: Seq<u8>, s: int, e: int) -> Option<(int, int)> {
    let t = b.subrange(s, e);
    if occurs_at(t, seq![0x23u8], 0) || occurs_at(t, "http://".spec_bytes(), 0) || occurs_at(
        t,
        "https://".spec_bytes(),
        0,
    ) || occurs_at(t, "mailto:".spec_bytes(), 0) || occurs_at(t, "data:".spec_bytes(), 0) {
        None
    } else {
        let p = match first_occurrence(b.take(e), seq![0x23u8], s) {
            Some(h) => h,
            None => e,
        };
        if s < p && b[s] != 0x2F { Some((s, p)) } else { None }
    }
}

fn starts_with_at(b: &[u8], s: usize, e: usize, pat: &[u8]) -> (r: bool)
    requires
        s <= e <= b@.len(),
    ensures
        r == occurs_at(b@.subrange(s as int, e as int), pat@, 0),
{
    let t = vstd::slice::slice_subrange(b, s, e);
    matches_at(t, pat, 0)
}

/// The repository-local path that the link target `[s, e)` names, if any.
pub fn local_markdown_target(b: &[u8], s: usize, e: usize) -> (r: Option<(usize, usize)>)
    requires
        s <= e <= b@.len(),
    ensures
        match local_target(b@, s as int, e as int) {
            None => r is None,
            Some((x, y)) => r == Some((x as usize, y as usize)),
        },
        r matches Some((x, y)) ==> s == x < y <= e,
        local_target(b@, s as int, e as int) matches Some((x, y)) ==> s == x < y <= e,
{
    let hash: [u8; 1] = [0x23];
    proof {
        assert(hash@ =~= seq![0x23u8]);
    }
    if starts_with_at(b, s, e, &hash) || starts_with_at(b, s, e, "http://".as_bytes())
        || starts_with_at(b, s, e, "https://".as_bytes()) || starts_with_at(b, s, e, "mailto:".as_bytes())
        || starts_with_at(b, s, e, "data:".as_bytes()) {
        return None;
    }
    let line = vstd::slice::slice_subrange(b, 0, e);
    proof {
        assert(line@ =~= b@.take(e as int));
        lemma_first_occurrence(line@, hash@, s as int);
    }
    let p = match find_from(line, &hash, s) {
        Some(h) => h,
        None => e,
    };
    if s < p && b[s] != 0x2F {
        Some((s, p))
    } else {
        None
    }
}

/// Which fence a line opens or closes, if its text starts with one:
/// 0 for a backtick fence, 1 for a tilde fence.
pub open spec fn fence_of(b: Seq<u8>, s: int, e: int) -> Option<int> {
    let t = trim_start_at(b, s, e);
    if occurs_at(b.take(e), seq![0x60u8, 0x60u8, 0x60u8], t) {
        Some(0)
    } else if occurs_at(b.take(e), seq![0x7Eu8, 0x7Eu8, 0x7Eu8], t) {
        Some(1)
    } else {
        None
    }
}

/// The fence that is open after a fence line `f`: a fence opens when none
/// is open and closes with the same kind of fence; another kind inside it
/// changes nothing.
pub open spec fn next_fence(open: Option<int>, f: int) -> Option<int> {
    match open {
        None => Some(f),
        Some(a) => if a == f { None } else { Some(a) },
    }
}

/// The lines from `ls[k]` on that lie outside fenced blocks, given the
/// fence open before `ls[k]`; fence lines themselves are left out.
pub open spec fn outside_fences_from(b: Seq<u8>, ls: Seq<(int, int)>, k: int, open: Option<int>) -> Seq<(int, int)>
    decreases ls.len() - k,
{
    if k < 0 || k >= ls.len() {
        Seq::empty()
    } else {
        match fence_of(b, ls[k].0, ls[k].1) {
            Some(f) => outside_fences_from(b, ls, k + 1, next_fence(open, f)),
            None => (if open is None { seq![ls[k]] } else { Seq::empty() }) + outside_fences_from(b, ls, k + 1, open),
        }
    }
}

/// The lines of a document outside its fenced blocks.
pub open spec fn lines_outside_fences(b: Seq<u8>) -> Seq<(int, int)> {
    outside_fences_from(b, lines(b), 0, None)
}

fn fence(b: &[u8], s: usize, e: usize) -> (r: Option<u8>)
    requires
        s <= e <= b@.len(),
    ensures
        match fence_of(b@, s as int, e as int) {
            None => r is None,
            Some(f) => r == Some(f as u8),
        },
{
    let t = trim_start(b, s, e);
    let line = vstd::slice::slice_subrange(b, 0, e);
    let ticks: [u8; 3] = [0x60, 0x60, 0x60];
    let tildes: [u8; 3] = [0x7E, 0x7E, 0x7E];
    proof {
        assert(line@ =~= b@.take(e as int));
        assert(ticks@ =~= seq![0x60u8, 0x60u8, 0x60u8]);
        assert(tildes@ =~= seq![0x7Eu8, 0x7Eu8, 0x7Eu8]);
    }
    if matches_at(line, &ticks, t) {
        Some(0)
    } else if matches_at(line, &tildes, t) {
        Some(1)
    } else {
        None
    }
}

/// The lines of `content` outside fenced code blocks, as byte ranges.
pub fn markdown_lines_outside_fences(content: &[u8]) -> (r: Vec<(usize, usize)>)
    ensures
        r@.len() == lines_outside_fences(content@).len(),
        forall|k: int| 0 <= k < r@.len() ==> (#[trigger] r@[k]).0 as int == lines_outside_fences(content@)[k].0
            && r@[k].1 as int == lines_outside_fences(content@)[k].1,
        forall|k: int| 0 <= k < r@.len() ==> (#[trigger] r@[k]).0 <= r@[k].1 <= content@.len(),
{
    let ranges = line_ranges(content);
    let ghost ls = lines(content@);
    let ghost all = lines_outside_fences(content@);
    let mut out: Vec<(usize, usize)> = Vec::new();
    let mut open: Option<u8> = None;
    let mut k: usize = 0;
    while k < ranges.len()
        invariant
            k <= ranges@.len(),
            ls == lines(content@),
            ranges@.len() == ls.len(),
            forall|m: int| 0 <= m < ranges@.len() ==> (#[trigger] ranges@[m]).0 as int == ls[m].0
                && ranges@[m].1 as int == ls[m].1,
            forall|m: int| 0 <= m < ranges@.len() ==> (#[trigger] ranges@[m]).0 <= ranges@[m].1 <= content@.len(),
            all == Seq::new(out@.len() as nat, |m: int| (out@[m].0 as int, out@[m].1 as int))
                + outside_fences_from(content@, ls, k as int, match open { Some(f) => Some(f as int), None => None }),
            forall|m: int| 0 <= m < out@.len() ==> (#[trigger] out@[m]).0 <= out@[m].1 <= content@.len(),
        decreases ranges@.len() - k,
    {
        let ghost prefix = Seq::new(out@.len() as nat, |m: int| (out@[m].0 as int, out@[m].1 as int));
        let ghost open_spec = match open { Some(f) => Some(f as int), None => None::<int> };
        let (s, e) = ranges[k];
        assert(ls[k as int] == (s as int, e as int));
        match fence(content, s, e) {
            Some(f) => {
                open = match open {
                    None => Some(f),
                    Some(a) => if a == f { None } else { Some(a) },
                };
                proof {
                    assert(outside_fences_from(content@, ls, k as int, open_spec) == outside_fences_from(
                        content@,
                        ls,
                        k + 1,
                        next_fence(open_spec, f as int),
                    ));
                }
            },
            None => {
                if open.is_none() {
                    out.push((s, e));
                }
                proof {
                    let np = Seq::new(out@.len() as nat, |m: int| (out@[m].0 as int, out@[m].1 as int));
                    let piece = if open_spec is None { seq![ls[k as int]] } else { Seq::<(int, int)>::empty() };
                    assert(np =~= prefix + piece);
                    assert(outside_fences_from(content@, ls, k as int, open_spec) == piece + outside_fences_from(
                        content@,
                        ls,
                        k + 1,
                        open_spec,
                    ));
                    assert(np + outside_fences_from(content@, ls, k + 1, open_spec) =~= prefix + (piece
                        + outside_fences_from(content@, ls, k + 1, open_spec)));
                }
            },
        }
        k += 1;
    }
    proof {
        let p = Seq::new(out@.len() as nat, |m: int| (out@[m].0 as int, out@[m].1 as int));
        assert(p + Seq::<(int, int)>::empty() =~= p);
    }
    out
}

/// The inline link targets of the lines `ls[k..]`, in order.
pub open spec fn links_of_lines(b: Seq<u8>, ls: Seq<(int, int)>, k: int) -> Seq<(int, int)>
    decreases ls.len() - k,
{
    if k < 0 || k >= ls.len() {
        Seq::empty()
    } else {
        inline_targets_from(b, ls[k].0, ls[k].1) + links_of_lines(b, ls, k + 1)
    }
}

/// The inline link targets of a document outside its fenced blocks.
pub open spec fn markdown_links(b: Seq<u8>) -> Seq<(int, int)> {
    links_of_lines(b, lines_outside_fences(b), 0)
}

/// The reference definitions of the lines `ls[k..]` whose targets name a
/// repository-local path, by their targets.
pub open spec fn local_refs_of_lines(b: Seq<u8>, ls: Seq<(int, int)>, k: int) -> Seq<(int, int)>
    decreases ls.len() - k,
{
    if k < 0 || k >= ls.len() {
        Seq::empty()
    } else {
        (match reference_target(b, ls[k].0, ls[k].1) {
            Some(t) => if local_target(b, t.0, t.1) is Some { seq![t] } else { Seq::empty() },
            None => Seq::empty(),
        }) + local_refs_of_lines(b, ls, k + 1)
    }
}

/// The reference definitions of a document, outside its fenced blocks,
/// whose targets name a repository-local path.
pub open spec fn local_reference_targets(b: Seq<u8>) -> Seq<(int, int)> {
    local_refs_of_lines(b, lines_outside_fences(b), 0)
}

/// Byte ranges viewed as integer pairs.
pub open spec fn as_ranges(v: Seq<(usize, usize)>) -> Seq<(int, int)> {
    Seq::new(v.len(), |k: int| (v[k].0 as int, v[k].1 as int))
}

/// The inline link targets of `content`, outside fenced blocks.
pub fn markdown_link_targets(content: &[u8]) -> (r: Vec<(usize, usize)>)
    ensures
        as_ranges(r@) == markdown_links(content@),
        forall|k: int| 0 <= k < r@.len() ==> (#[trigger] r@[k]).0 < r@[k].1 <= content@.len(),
{
    let ls = markdown_lines_outside_fences(content);
    let ghost lsv = lines_outside_fences(content@);
    proof {
        assert(as_ranges(ls@) =~= lsv);
    }
    let mut out: Vec<(usize, usize)> = Vec::new();
    let mut k: usize = 0;
    while k < ls.len()
        invariant
            k <= ls@.len(),
            lsv == lines_outside_fences(content@),
            as_ranges(ls@) == lsv,
            forall|m: int| 0 <= m < ls@.len() ==> (#[trigger] ls@[m]).0 <= ls@[m].1 <= content@.len(),
            markdown_links(content@) == as_ranges(out@) + links_of_lines(content@, lsv, k as int),
            forall|m: int| 0 <= m < out@.len() ==> (#[trigger] out@[m]).0 < out@[m].1 <= content@.len(),
        decreases ls@.len() - k,
    {
        let (s, e) = ls[k];
        assert(lsv[k as int] == (s as int, e as int));
        let found = inline_link_targets(content, s, e);
        let ghost before = out@;
        let mut j: usize = 0;
        while j < found.len()
            invariant
                j <= found@.len(),
                e <= content@.len(),
                as_ranges(found@) == inline_targets_from(content@, s as int, e as int),
                forall|m: int| 0 <= m < found@.len() ==> (#[trigger] found@[m]).0 < found@[m].1 <= e,
                out@ == before + found@.take(j as int),
                forall|m: int| 0 <= m < before.len() ==> (#[trigger] before[m]).0 < before[m].1 <= content@.len(),
            decreases found@.len() - j,
        {
            out.push(found[j]);
            j += 1;
            proof {
                assert(found@.take(j as int) =~= found@.take(j - 1).push(found@[j - 1]));
            }
        }
        proof {
            assert(found@.take(found@.len() as int) =~= found@);
            assert(as_ranges(out@) =~= as_ranges(before) + as_ranges(found@));
            assert(links_of_lines(content@, lsv, k as int) == inline_targets_from(content@, s as int, e as int)
                + links_of_lines(content@, lsv, k + 1));
            assert(as_ranges(out@) + links_of_lines(content@, lsv, k + 1) =~= as_ranges(before)
                + links_of_lines(content@, lsv, k as int));
            assert forall|m: int| 0 <= m < out@.len() implies (#[trigger] out@[m]).0 < out@[m].1 <= content@.len() by {
                if m >= before.len() {
                    assert(out@[m] == found@[m - before.len()]);
                }
            }
        }
        k += 1;
    }
    proof {
        assert(as_ranges(out@) + Seq::<(int, int)>::empty() =~= as_ranges(out@));
    }
    out
}

/// The reference definitions of `content`, outside fenced blocks, whose
/// targets name a repository-local path, by their targets.
pub fn reference_style_local_targets(content: &[u8]) -> (r: Vec<(usize, usize)>)
    ensures
        as_ranges(r@) == local_reference_targets(content@),
        forall|k: int| 0 <= k < r@.len() ==> (#[trigger] r@[k]).0 < r@[k].1 <= content@.len(),
{
    let ls = markdown_lines_outside_fences(content);
    let ghost lsv = lines_outside_fences(content@);
    proof {
        assert(as_ranges(ls@) =~= lsv);
    }
    let mut out: Vec<(usize, usize)> = Vec::new();
    let mut k: usize = 0;
    while k < ls.len()
        invariant
            k <= ls@.len(),
            lsv == lines_outside_fences(content@),
            as_ranges(ls@) == lsv,
            forall|m: int| 0 <= m < ls@.len() ==> (#[trigger] ls@[m]).0 <= ls@[m].1 <= content@.len(),
            local_reference_targets(content@) == as_ranges(out@) + local_refs_of_lines(content@, lsv, k as int),
            forall|m: int| 0 <= m < out@.len() ==> (#[trigger] out@[m]).0 < out@[m].1 <= content@.len(),
        decreases ls@.len() - k,
    {
        let (s, e) = ls[k];
        assert(lsv[k as int] == (s as int, e as int));
        let ghost before = out@;
        let ghost piece = match reference_target(content@, s as int, e as int) {
            Some(t) => if local_target(content@, t.0, t.1) is Some { seq![t] } else { Seq::<(int, int)>::empty() },
            None => Seq::<(int, int)>::empty(),
        };
        match reference_definition_target(content, s, e) {
            Some((x, y)) => {
                if local_markdown_target(content, x, y).is_some() {
                    out.push((x, y));
                }
            },
            None => {},
        }
        proof {
            assert(as_ranges(out@) =~= as_ranges(before) + piece);
            assert(local_refs_of_lines(content@, lsv, k as int) == piece + local_refs_of_lines(content@, lsv, k + 1));
            assert(as_ranges(out@) + local_refs_of_lines(content@, lsv, k + 1) =~= as_ranges(before)
                + local_refs_of_lines(content@, lsv, k as int));
        }
        k += 1;
    }
    proof {
        assert(as_ranges(out@) + Seq::<(int, int)>::empty() =~= as_ranges(out@));
    }
    out
}

} // verus!

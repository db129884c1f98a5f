//! Scans of source and manifest text: crate paths, inline path
//! dependencies, required and forbidden text, and file kinds.

use vstd::prelude::*;
use vstd::string::StringSliceAdditionalSpecFns;
use crate::text::{occurs_at, first_occurrence, contains, lemma_first_occurrence, find_from,
    contains_bytes, trim_start_at, trim_start, lines, line_ranges, matches_at};

verus! {

/// Whether a byte can continue an identifier: an ASCII letter, digit or `_`.
pub open spec fn is_ident_byte(c: u8) -> bool {
    (0x30 <= c <= 0x39) || (0x41 <= c <= 0x5A) || (0x61 <= c <= 0x7A) || c == 0x5F
}

/// Whether an occurrence at `i` starts a path of its own: nothing, or no
/// identifier byte, precedes it.
pub open spec fn standalone_at(src: Seq<u8>, i: int) -> bool {
    i == 0 || !is_ident_byte(src[i - 1])
}

/// `package` followed by `::`.
pub open spec fn crate_path_token(package: Seq<u8>) -> Seq<u8> {
    package + seq![0x3Au8, 0x3Au8]
}

/// Scanning from `from`, and resuming after each occurrence of `token`
/// that does not stand on its own: whether one that does is met.
pub open spec fn standalone_from(src: Seq<u8>, token: Seq<u8>, from: int) -> bool
    decreases src.len() + 1 - from,
{
    match first_occurrence(src, token, from) {
        None => false,
        Some(i) => if i < from || token.len() == 0 || i + token.len() > src.len() {
            false
        } else {
            standalone_at(src, i) || standalone_from(src, token, i + token.len())
        },
    }
}

/// Whether `source` names `package::` as a path of its own, not as the
/// tail of a longer identifier.
pub fn contains_standalone_crate_path(source: &[u8], package: &[u8]) -> (r: bool)
    ensures
        r == standalone_from(source@, crate_path_token(package@), 0),
{
    let mut token: Vec<u8> = Vec::new();
    let mut k: usize = 0;
    while k < package.len()
        invariant
            k <= package@.len(),
            token@ == package@.take(k as int),
        decreases package@.len() - k,
    {
        token.push(package[k]);
        k += 1;
        proof {
            assert(token@ =~= package@.take(k as int));
        }
    }
    token.push(0x3A);
    token.push(0x3A);
    proof {
        assert(package@.take(package@.len() as int) =~= package@);
        assert(token@ =~= crate_path_token(package@));
    }
    let ghost t = crate_path_token(package@);
    let mut start: usize = 0;
    loop
        invariant
            token@ == t,
            t == crate_path_token(package@),
            t.len() >= 2,
            start <= source@.len() + 2,
            standalone_from(source@, t, 0) == standalone_from(source@, t, start as int),
        decreases source@.len() + 2 - start,
    {
        let found = find_from(source, token.as_slice(), start);
        proof {
            lemma_first_occurrence(source@, t, start as int);
        }
        match found {
            None => {
                assert(first_occurrence(source@, t, start as int) is None);
                assert(!standalone_from(source@, t, start as int));
                return false;
            },
            Some(index) => {
                assert(first_occurrence(source@, t, start as int) == Some(index as int));
                assert(occurs_at(source@, t, index as int));
                if index == 0 || !(is_ident(source[index - 1])) {
                    assert(standalone_at(source@, index as int));
                    assert(standalone_from(source@, t, start as int));
                    return true;
                }
                assert(!standalone_at(source@, index as int));
                assert(standalone_from(source@, t, start as int) == standalone_from(
                    source@,
                    t,
                    index + t.len(),
                ));
                start = index + token.len();
            },
        }
    }
}

fn is_ident(c: u8) -> (r: bool)
    ensures
        r == is_ident_byte(c),
{
    (0x30 <= c && c <= 0x39) || (0x41 <= c && c <= 0x5A) || (0x61 <= c && c <= 0x7A) || c == 0x5F
}

/// The marker that opens an inline path dependency: `path = "`.
pub open spec fn path_marker() -> Seq<u8> {
    seq![0x70u8, 0x61u8, 0x74u8, 0x68u8, 0x20u8, 0x3Du8, 0x20u8, 0x22u8]
}

/// The byte range of the value of the first inline `path = "..."` in a
/// manifest line: from after the marker up to the next `"`.
pub open spec fn inline_path_range(line: Seq<u8>) -> Option<(int, int)> {
    match first_occurrence(line, path_marker(), 0) {
        None => None,
        Some(m) => {
            let start = m + path_marker().len();
            match first_occurrence(line, seq![0x22u8], start) {
                None => None,
                Some(end) => Some((start, end)),
            }
        },
    }
}

/// The value of the first inline `path = "..."` of a manifest line, as a
/// byte range of `line`.
pub fn toml_inline_path(line: &[u8]) -> (r: Option<(usize, usize)>)
    ensures
        match inline_path_range(line@) {
            None => r is None,
            Some((s, e)) => r == Some((s as usize, e as usize)),
        },
        r matches Some((s, e)) ==> s <= e <= line@.len(),
{
    let marker: [u8; 8] = [0x70, 0x61, 0x74, 0x68, 0x20, 0x3D, 0x20, 0x22];
    proof {
        assert(marker@ =~= path_marker());
    }
    proof {
        lemma_first_occurrence(line@, path_marker(), 0);
    }
    let m = match find_from(line, &marker, 0) {
        Some(m) => m,
        None => return None,
    };
    assert(occurs_at(line@, path_marker(), m as int));
    if line.len() < 8 || m > line.len() - 8 {
        return None;
    }
    let start = m + 8;
    let quote: [u8; 1] = [0x22];
    proof {
        assert(quote@ =~= seq![0x22u8]);
    }
    match find_from(line, &quote, start) {
        Some(end) => {
            proof {
                lemma_first_occurrence(line@, seq![0x22u8], start as int);
            }
            Some((start, end))
        },
        None => None,
    }
}

/// The first of `required` that `text` does not contain, from index `k` on.
pub open spec fn first_missing_from(text: Seq<u8>, required: Seq<&'static str>, k: int) -> Option<int>
    decreases required.len() - k,
{
    if k < 0 || k >= required.len() {
        None
    } else if !contains(text, required[k].spec_bytes()) {
        Some(k)
    } else {
        first_missing_from(text, required, k + 1)
    }
}

/// The first of `required` that `text` does not contain.
pub open spec fn first_missing(text: Seq<u8>, required: Seq<&'static str>) -> Option<int> {
    first_missing_from(text, required, 0)
}

/// The first of `forbidden` that `text` contains, from index `k` on.
pub open spec fn first_present_from(text: Seq<u8>, forbidden: Seq<&'static str>, k: int) -> Option<int>
    decreases forbidden.len() - k,
{
    if k < 0 || k >= forbidden.len() {
        None
    } else if contains(text, forbidden[k].spec_bytes()) {
        Some(k)
    } else {
        first_present_from(text, forbidden, k + 1)
    }
}

/// The first of `forbidden` that `text` contains.
pub open spec fn first_present(text: Seq<u8>, forbidden: Seq<&'static str>) -> Option<int> {
    first_present_from(text, forbidden, 0)
}

/// The first of `required` that `text` does not contain.
pub fn find_missing(text: &[u8], required: &[&'static str]) -> (r: Option<usize>)
    ensures
        r is None <==> first_missing(text@, required@) is None,
        r matches Some(k) ==> first_missing(text@, required@) == Some(k as int) && k < required@.len(),
{
    let mut k: usize = 0;
    while k < required.len()
        invariant
            k <= required@.len(),
            first_missing(text@, required@) == first_missing_from(text@, required@, k as int),
        decreases required@.len() - k,
    {
        if !contains_bytes(text, required[k].as_bytes()) {
            return Some(k);
        }
        k += 1;
    }
    None
}

/// The first of `forbidden` that `text` contains.
pub fn find_present(text: &[u8], forbidden: &[&'static str]) -> (r: Option<usize>)
    ensures
        r is None <==> first_present(text@, forbidden@) is None,
        r matches Some(k) ==> first_present(text@, forbidden@) == Some(k as int) && k < forbidden@.len(),
{
    let mut k: usize = 0;
    while k < forbidden.len()
        invariant
            k <= forbidden@.len(),
            first_present(text@, forbidden@) == first_present_from(text@, forbidden@, k as int),
        decreases forbidden@.len() - k,
    {
        if contains_bytes(text, forbidden[k].as_bytes()) {
            return Some(k);
        }
        k += 1;
    }
    None
}

/// Whether some line of `text`, once its leading whitespace is skipped,
/// is exactly `wanted`.
pub open spec fn has_trimmed_line(text: Seq<u8>, wanted: Seq<u8>) -> bool {
    exists|k: int| 0 <= k < lines(text).len() && ({
        let (s, e) = #[trigger] lines(text)[k];
        text.subrange(trim_start_at(text, s, e), e) == wanted
    })
}

/// Whether some line of `text`, once its leading whitespace is skipped,
/// is exactly `wanted`.
pub fn contains_trimmed_line(text: &[u8], wanted: &[u8]) -> (r: bool)
    ensures
        r == has_trimmed_line(text@, wanted@),
{
    let ranges = line_ranges(text);
    let mut k: usize = 0;
    while k < ranges.len()
        invariant
            k <= ranges@.len(),
            ranges@.len() == lines(text@).len(),
            forall|m: int| 0 <= m < ranges@.len() ==> (#[trigger] ranges@[m]).0 as int == lines(text@)[m].0
                && ranges@[m].1 as int == lines(text@)[m].1,
            forall|m: int| 0 <= m < ranges@.len() ==> (#[trigger] ranges@[m]).0 <= ranges@[m].1 <= text@.len(),
            forall|m: int| 0 <= m < k ==> ({
                let (s, e) = #[trigger] lines(text@)[m];
                text@.subrange(trim_start_at(text@, s, e), e) != wanted@
            }),
        decreases ranges@.len() - k,
    {
        let (s, e) = ranges[k];
        let t = trim_start(text, s, e);
        if e - t == wanted.len() && matches_at(text, wanted, t) {
            proof {
                assert(text@.subrange(t as int, e as int) =~= wanted@);
                let _ = lines(text@)[k as int];
            }
            return true;
        }
        proof {
            if text@.subrange(t as int, e as int) == wanted@ {
                assert(occurs_at(text@, wanted@, t as int));
            }
            let _ = lines(text@)[k as int];
        }
        k += 1;
    }
    false
}

/// The index of the last `.` before `j`, or -1.
pub open spec fn last_dot_before(name: Seq<u8>, j: int) -> int
    decreases j,
{
    if j <= 0 || j > name.len() {
        -1
    } else if name[j - 1] == 0x2E {
        j - 1
    } else {
        last_dot_before(name, j - 1)
    }
}

/// The extension of a file name: what follows its last `.`, unless that
/// `.` is the name's first byte or there is none.
pub open spec fn extension_of(name: Seq<u8>) -> Option<Seq<u8>> {
    let k = last_dot_before(name, name.len() as int);
    if k > 0 {
        Some(name.subrange(k + 1, name.len() as int))
    } else {
        None
    }
}

/// The extensions of authored text files.
pub open spec fn text_extensions() -> Seq<&'static str> {
    seq!["md", "rs", "toml", "yml", "yaml", "json", "gd", "txt"]
}

/// Whether some entry of `names` has the bytes `b`.
pub open spec fn names_contain(names: Seq<&'static str>, b: Seq<u8>) -> bool {
    exists|k: int| 0 <= k < names.len() && (#[trigger] names[k]).spec_bytes() == b
}

/// Whether a file holds authored text that the size limit applies to: by
/// its extension or its name, but never the lock file.
pub open spec fn authored_text(name: Seq<u8>) -> bool {
    &&& name != "Cargo.lock".spec_bytes()
    &&& (match extension_of(name) {
        Some(ext) => names_contain(text_extensions(), ext),
        None => false,
    } || names_contain(seq!["LICENSE", "LICENSING.md"], name))
}

/// Whether two byte strings are equal.
pub fn bytes_eq(a: &[u8], b: &[u8]) -> (r: bool)
    ensures
        r == (a@ == b@),
{
    if a.len() != b.len() {
        return false;
    }
    let mut k: usize = 0;
    while k < a.len()
        invariant
            a@.len() == b@.len(),
            k <= a@.len(),
            forall|m: int| 0 <= m < k ==> a@[m] == b@[m],
        decreases a@.len() - k,
    {
        if a[k] != b[k] {
            return false;
        }
        k += 1;
    }
    proof {
        assert(a@ =~= b@);
    }
    true
}

fn find_name(names: &[&'static str], b: &[u8]) -> (r: bool)
    ensures
        r == names_contain(names@, b@),
{
    let mut k: usize = 0;
    while k < names.len()
        invariant
            k <= names@.len(),
            forall|m: int| 0 <= m < k ==> (#[trigger] names@[m]).spec_bytes() != b@,
        decreases names@.len() - k,
    {
        if bytes_eq(names[k].as_bytes(), b) {
            return true;
        }
        k += 1;
    }
    false
}

/// The index of the last `.` of `name`, or `None`.
fn last_dot(name: &[u8]) -> (r: Option<usize>)
    ensures
        match r {
            Some(k) => last_dot_before(name@, name@.len() as int) == k && k < name@.len(),
            None => last_dot_before(name@, name@.len() as int) == -1,
        },
{
    let mut j = name.len();
    while j > 0
        invariant
            j <= name@.len(),
            last_dot_before(name@, name@.len() as int) == last_dot_before(name@, j as int),
        decreases j,
    {
        if name[j - 1] == 0x2E {
            return Some(j - 1);
        }
        j -= 1;
    }
    None
}

/// Whether a file of this name holds authored text.
pub fn is_authored_text(name: &[u8]) -> (r: bool)
    ensures
        r == authored_text(name@),
{
    if bytes_eq(name, "Cargo.lock".as_bytes()) {
        return false;
    }
    let extensions = vec!["md", "rs", "toml", "yml", "yaml", "json", "gd", "txt"];
    let names = vec!["LICENSE", "LICENSING.md"];
    proof {
        assert(extensions@ == text_extensions());
        assert(names@ == seq!["LICENSE", "LICENSING.md"]);
    }
    let by_extension = match last_dot(name) {
        Some(k) => if k > 0 && k < name.len() {
            let ext = slice_from(name, k + 1);
            find_name(extensions.as_slice(), ext)
        } else {
            false
        },
        None => false,
    };
    by_extension || find_name(names.as_slice(), name)
}

fn slice_from(b: &[u8], k: usize) -> (r: &[u8])
    requires
        k <= b@.len(),
    ensures
        r@ == b@.subrange(k as int, b@.len() as int),
{
    vstd::slice::slice_subrange(b, k, b.len())
}

} // verus!

//! Paths as byte strings, read with the rules of Unix paths: `/` separates
//! components, empty components and `.` components are passed over, and a
//! leading `/` makes a path absolute. Bytes that are not UTF-8 stand for the
//! empty path.
use vstd::prelude::*;
use vstd::utf8::{
    is_char_boundary, is_char_boundary_iff_not_is_continuation_byte,
    is_char_boundary_start_end_of_seq, is_continuation_byte, valid_utf8, valid_utf8_concat,
    valid_utf8_split,
};
use super::errno::utf8_text;

verus! {

/// Whether the bytes are well-formed UTF-8.
pub fn is_utf8(input: &[u8]) -> (r: bool)
    ensures
        r == valid_utf8(input@),
{
    utf8_text(input).is_some()
}

pub open spec fn slash() -> u8 {
    '/' as u8
}

pub open spec fn dot() -> Seq<u8> {
    seq!['.' as u8]
}

pub open spec fn dot_dot() -> Seq<u8> {
    seq!['.' as u8, '.' as u8]
}

/// The path that bytes stand for: themselves when UTF-8, else the empty path.
pub open spec fn as_path(input: Seq<u8>) -> Seq<u8> {
    if valid_utf8(input) {
        input
    } else {
        seq![]
    }
}

/// Whether a path starts at the root.
pub open spec fn is_absolute(s: Seq<u8>) -> bool {
    s.len() > 0 && s[0] == slash()
}

/// Position of the first `/` at or after `i`, or the end.
pub open spec fn slash_from(s: Seq<u8>, i: int) -> int
    decreases s.len() - i,
{
    if i >= s.len() || s[i] == slash() {
        i
    } else {
        slash_from(s, i + 1)
    }
}

pub proof fn lemma_slash_from(s: Seq<u8>, i: int)
    requires
        0 <= i <= s.len(),
    ensures
        i <= slash_from(s, i) <= s.len(),
        slash_from(s, i) < s.len() ==> s[slash_from(s, i)] == slash(),
        forall|j: int| i <= j < slash_from(s, i) ==> #[trigger] s[j] != slash(),
    decreases s.len() - i,
{
    if i < s.len() && s[i] != slash() {
        lemma_slash_from(s, i + 1);
    }
}

/// The non-empty runs of bytes between separators, from position `i` on.
pub open spec fn pieces_from(s: Seq<u8>, i: int) -> Seq<Seq<u8>>
    decreases s.len() - i,
{
    if i < 0 || i >= s.len() {
        seq![]
    } else {
        let k = slash_from(s, i);
        proof {
            lemma_slash_from(s, i);
        }
        let rest = if k < s.len() {
            pieces_from(s, k + 1)
        } else {
            seq![]
        };
        if k == i {
            rest
        } else {
            seq![s.subrange(i, k)] + rest
        }
    }
}

/// The non-empty runs of bytes between separators.
pub open spec fn pieces(s: Seq<u8>) -> Seq<Seq<u8>> {
    pieces_from(s, 0)
}

/// Resolving the components in order: `.` is passed over; `..` drops the
/// last name kept, is dropped itself at the root, and is kept when nothing
/// precedes it in a relative path.
pub open spec fn resolve(abs: bool, ps: Seq<Seq<u8>>) -> Seq<Seq<u8>>
    decreases ps.len(),
{
    if ps.len() == 0 {
        seq![]
    } else {
        let acc = resolve(abs, ps.drop_last());
        let c = ps.last();
        if c == dot() {
            acc
        } else if c == dot_dot() {
            if abs || acc.len() > 0 {
                if acc.len() > 0 {
                    acc.drop_last()
                } else {
                    acc
                }
            } else {
                acc.push(dot_dot())
            }
        } else {
            acc.push(c)
        }
    }
}

/// Names joined by `/`.
pub open spec fn join_names(ps: Seq<Seq<u8>>) -> Seq<u8>
    decreases ps.len(),
{
    if ps.len() == 0 {
        seq![]
    } else if ps.len() == 1 {
        ps[0]
    } else {
        join_names(ps.drop_last()) + seq![slash()] + ps.last()
    }
}

/// The text of a resolved path: a leading `/` when absolute, and `.` for
/// the empty relative path.
pub open spec fn render(abs: bool, ps: Seq<Seq<u8>>) -> Seq<u8> {
    if abs {
        seq![slash()] + join_names(ps)
    } else if ps.len() == 0 {
        dot()
    } else {
        join_names(ps)
    }
}

/// The normal form of a path.
pub open spec fn normal_form(s: Seq<u8>) -> Seq<u8> {
    render(is_absolute(s), resolve(is_absolute(s), pieces(s)))
}

/// `relative` adjoined to `base`: an absolute `relative` replaces `base`;
/// otherwise a `/` separates them unless `base` is empty or ends with one.
pub open spec fn join_spec(base: Seq<u8>, relative: Seq<u8>) -> Seq<u8> {
    if is_absolute(relative) {
        relative
    } else if base.len() > 0 && base.last() != slash() {
        base + seq![slash()] + relative
    } else {
        base + relative
    }
}

/// The last name of a path: the last component other than `.`, unless it is `..`.
pub open spec fn file_name(ps: Seq<Seq<u8>>) -> Option<Seq<u8>>
    decreases ps.len(),
{
    if ps.len() == 0 {
        None
    } else if ps.last() == dot() {
        file_name(ps.drop_last())
    } else if ps.last() == dot_dot() {
        None
    } else {
        Some(ps.last())
    }
}

/// Position of the last `.` in a name before position `k`, or -1.
pub open spec fn last_dot_before(name: Seq<u8>, k: int) -> int
    decreases k,
{
    if k <= 0 {
        -1
    } else if name[k - 1] == '.' as u8 {
        k - 1
    } else {
        last_dot_before(name, k - 1)
    }
}

/// The extension of a name: what follows its last `.`, when that `.` is not
/// its first byte.
pub open spec fn extension_of(name: Seq<u8>) -> Option<Seq<u8>> {
    let i = last_dot_before(name, name.len() as int);
    if i <= 0 {
        None
    } else {
        Some(name.subrange(i + 1, name.len() as int))
    }
}

/// Copies bytes `s[i..k]`.
fn copy_range(s: &[u8], i: usize, k: usize) -> (v: Vec<u8>)
    requires
        i <= k <= s.len(),
    ensures
        v@ == s@.subrange(i as int, k as int),
{
    let mut v: Vec<u8> = Vec::new();
    let mut j = i;
    while j < k
        invariant
            i <= j <= k <= s.len(),
            v@ == s@.subrange(i as int, j as int),
        decreases k - j,
    {
        v.push(s[j]);
        j = j + 1;
        assert(v@ =~= s@.subrange(i as int, j as int));
    }
    v
}

/// The components of a path between its separators.
fn split_pieces(s: &[u8]) -> (v: Vec<Vec<u8>>)
    ensures
        v@.map_values(|x: Vec<u8>| x@) == pieces(s@),
{
    let mut v: Vec<Vec<u8>> = Vec::new();
    let mut i: usize = 0;
    while i < s.len()
        invariant
            i <= s.len(),
            v@.map_values(|x: Vec<u8>| x@) + pieces_from(s@, i as int) == pieces(s@),
        decreases s.len() - i,
    {
        let mut k = i;
        while k < s.len() && s[k] != '/' as u8
            invariant
                i <= k <= s.len(),
                slash_from(s@, k as int) == slash_from(s@, i as int),
            decreases s.len() - k,
        {
            k = k + 1;
        }
        proof {
            lemma_slash_from(s@, i as int);
        }
        let ghost before = v@.map_values(|x: Vec<u8>| x@);
        if k > i {
            let piece = copy_range(s, i, k);
            v.push(piece);
            assert(v@.map_values(|x: Vec<u8>| x@) =~= before.push(s@.subrange(i as int, k as int)));
        }
        if k < s.len() {
            i = k + 1;
        } else {
            i = k;
        }
        proof {
            let rest = if k < s.len() {
                pieces_from(s@, k + 1)
            } else {
                seq![]
            };
            assert(pieces_from(s@, i as int) == rest);
            if k > i {
                assert(before + (seq![s@.subrange(i as int, k as int)] + rest) =~= before.push(
                    s@.subrange(i as int, k as int),
                ) + rest);
            }
        }
    }
    proof {
        assert(pieces_from(s@, i as int) =~= seq![]);
        assert(v@.map_values(|x: Vec<u8>| x@) + seq![] =~= v@.map_values(|x: Vec<u8>| x@));
    }
    v
}

fn is_dot(p: &Vec<u8>) -> (r: bool)
    ensures
        r == (p@ == dot()),
{
    let r = p.len() == 1 && p[0] == '.' as u8;
    proof {
        if r {
            assert(p@ =~= dot());
        }
    }
    r
}

fn is_dot_dot(p: &Vec<u8>) -> (r: bool)
    ensures
        r == (p@ == dot_dot()),
{
    let r = p.len() == 2 && p[0] == '.' as u8 && p[1] == '.' as u8;
    proof {
        if r {
            assert(p@ =~= dot_dot());
        }
    }
    r
}

/// Appends `b` to `a`.
fn append_bytes(a: &mut Vec<u8>, b: &[u8])
    ensures
        final(a)@ == old(a)@ + b@,
{
    let mut i: usize = 0;
    let ghost a0 = a@;
    while i < b.len()
        invariant
            i <= b.len(),
            a@ == a0 + b@.subrange(0, i as int),
        decreases b.len() - i,
    {
        a.push(b[i]);
        i = i + 1;
        assert(a@ =~= a0 + b@.subrange(0, i as int));
    }
    assert(b@.subrange(0, b.len() as int) =~= b@);
}

/// Calls `Path::exists` on the text of a path. Whether a file exists depends
/// on the file system at the time of the call, so nothing is stated of the result.
#[verifier::external_body]
fn probe_exists(path: &String) -> bool {
    std::path::Path::new(path.as_str()).exists()
}

/// Whether a path names an existing file; bytes that are not UTF-8 name nothing.
pub fn path_exists(path: &[u8]) -> (r: bool)
    ensures
        !valid_utf8(path@) ==> !r,
{
    match utf8_text(path) {
        Some(text) => probe_exists(&text),
        None => false,
    }
}

/// Joins `relative` onto `base` as `Path::join` does on Unix; bytes that are
/// not UTF-8 stand for the empty path.
pub fn join(base: &[u8], relative: &[u8]) -> (r: Vec<u8>)
    ensures
        r@ == join_spec(as_path(base@), as_path(relative@)),
{
    let empty: Vec<u8> = Vec::new();
    let base_path: &[u8] = if is_utf8(base) {
        base
    } else {
        empty.as_slice()
    };
    let relative_path: &[u8] = if is_utf8(relative) {
        relative
    } else {
        empty.as_slice()
    };
    if relative_path.len() > 0 && relative_path[0] == '/' as u8 {
        let mut out: Vec<u8> = Vec::new();
        append_bytes(&mut out, relative_path);
        assert(out@ =~= relative_path@);
        return out;
    }
    let mut out: Vec<u8> = Vec::new();
    append_bytes(&mut out, base_path);
    if base_path.len() > 0 && base_path[base_path.len() - 1] != '/' as u8 {
        out.push('/' as u8);
    }
    append_bytes(&mut out, relative_path);
    proof {
        assert(seq![] + base_path@ =~= base_path@);
    }
    out
}

/// The extension of the last name of a path, as `Path::extension` gives it
/// on Unix; `None` for bytes that are not UTF-8.
pub fn extension(path: &[u8]) -> (r: Option<Vec<u8>>)
    ensures
        (match r {
            Some(v) => Some(v@),
            None => None::<Seq<u8>>,
        }) == (if valid_utf8(path@) {
            match file_name(pieces(path@)) {
                Some(n) => extension_of(n),
                None => None,
            }
        } else {
            None
        }),
{
    if !is_utf8(path) {
        return None;
    }
    let ps = split_pieces(path);
    let ghost pv = ps@.map_values(|x: Vec<u8>| x@);
    // The last component other than `.`.
    let mut k = ps.len();
    assert(pv.subrange(0, k as int) =~= pv);
    while k > 0 && is_dot(&ps[k - 1])
        invariant
            k <= ps.len(),
            pv == ps@.map_values(|x: Vec<u8>| x@),
            file_name(pv.subrange(0, k as int)) == file_name(pv),
        decreases k,
    {
        assert(pv.subrange(0, k as int).drop_last() =~= pv.subrange(0, k - 1));
        k = k - 1;
    }
    if k == 0 {
        assert(pv.subrange(0, 0) =~= seq![]);
        return None;
    }
    assert(pv.subrange(0, k as int).last() == ps[k - 1]@);
    let name = &ps[k - 1];
    if is_dot_dot(name) {
        return None;
    }
    // The last `.` of the name.
    let mut j = name.len();
    while j > 0 && name[j - 1] != '.' as u8
        invariant
            j <= name.len(),
            last_dot_before(name@, j as int) == last_dot_before(name@, name.len() as int),
        decreases j,
    {
        j = j - 1;
    }
    if j <= 1 {
        return None;
    }
    Some(copy_range(name.as_slice(), j, name.len()))
}

/// The normal form of a path, as `Path::components` reads it: `.` is passed
/// over, `..` drops the name before it (or, with nothing before it, stays in
/// a relative path and goes at the root), and the empty result is `.`.
pub fn normalize(path: &[u8]) -> (r: Vec<u8>)
    ensures
        r@ == normal_form(as_path(path@)),
        valid_utf8(r@),
{
    proof {
        lemma_normalize_twice(path@);
    }
    let empty: Vec<u8> = Vec::new();
    let source: &[u8] = if is_utf8(path) {
        path
    } else {
        empty.as_slice()
    };
    let abs = source.len() > 0 && source[0] == '/' as u8;
    let ps = split_pieces(source);
    let ghost pv = ps@.map_values(|x: Vec<u8>| x@);
    let mut parts: Vec<Vec<u8>> = Vec::new();
    let mut i: usize = 0;
    while i < ps.len()
        invariant
            i <= ps.len(),
            pv == ps@.map_values(|x: Vec<u8>| x@),
            parts@.map_values(|x: Vec<u8>| x@) == resolve(abs, pv.subrange(0, i as int)),
        decreases ps.len() - i,
    {
        let ghost before = parts@.map_values(|x: Vec<u8>| x@);
        assert(pv.subrange(0, i + 1).drop_last() =~= pv.subrange(0, i as int));
        let c = &ps[i];
        if is_dot(c) {
        } else if is_dot_dot(c) {
            if abs || parts.len() > 0 {
                if parts.len() > 0 {
                    parts.pop();
                    assert(parts@.map_values(|x: Vec<u8>| x@) =~= before.drop_last());
                }
            } else {
                let mut dd: Vec<u8> = Vec::new();
                dd.push('.' as u8);
                dd.push('.' as u8);
                assert(dd@ =~= dot_dot());
                parts.push(dd);
                assert(parts@.map_values(|x: Vec<u8>| x@) =~= before.push(dot_dot()));
            }
        } else {
            let piece = copy_range(c.as_slice(), 0, c.len());
            assert(piece@ =~= c@);
            parts.push(piece);
            assert(parts@.map_values(|x: Vec<u8>| x@) =~= before.push(c@));
        }
        i = i + 1;
    }
    assert(pv.subrange(0, ps.len() as int) =~= pv);
    let ghost rv = parts@.map_values(|x: Vec<u8>| x@);
    let mut out: Vec<u8> = Vec::new();
    if abs {
        out.push('/' as u8);
    }
    let mut n: usize = 0;
    while n < parts.len()
        invariant
            n <= parts.len(),
            rv == parts@.map_values(|x: Vec<u8>| x@),
            out@ == (if abs {
                seq![slash()]
            } else {
                seq![]
            }) + join_names(rv.subrange(0, n as int)),
        decreases parts.len() - n,
    {
        let ghost prev = out@;
        if n > 0 {
            out.push('/' as u8);
        }
        append_bytes(&mut out, parts[n].as_slice());
        proof {
            let pre = if abs {
                seq![slash()]
            } else {
                seq![]
            };
            assert(rv.subrange(0, n + 1).drop_last() =~= rv.subrange(0, n as int));
            if n == 0 {
                assert(join_names(rv.subrange(0, 1)) == rv[0]);
                assert(out@ =~= pre + join_names(rv.subrange(0, n + 1)));
            } else {
                assert(out@ =~= pre + join_names(rv.subrange(0, n + 1)));
            }
        }
        n = n + 1;
    }
    assert(rv.subrange(0, parts.len() as int) =~= rv);
    if !abs && parts.len() == 0 {
        out.push('.' as u8);
        assert(out@ =~= dot());
    } else {
        assert(abs ==> out@ =~= seq![slash()] + join_names(rv));
        assert(!abs ==> out@ =~= join_names(rv));
    }
    out
}

// ---------------------------------------------------------------------------
// The normal form is a fixed point.
// ---------------------------------------------------------------------------

/// A name that a path component can be: not empty, without `/`.
pub open spec fn is_name(n: Seq<u8>) -> bool {
    n.len() > 0 && forall|k: int| 0 <= k < n.len() ==> #[trigger] n[k] != slash()
}

/// The components that `resolve` keeps: names other than `.`, with `..` only
/// first and only in a relative path.
pub open spec fn canonical(abs: bool, ps: Seq<Seq<u8>>) -> bool {
    forall|i: int|
        0 <= i < ps.len() ==> {
            &&& is_name(#[trigger] ps[i])
            &&& ps[i] != dot()
            &&& (ps[i] == dot_dot() ==> i == 0 && !abs)
        }
}

pub proof fn lemma_slash_from_shift(s: Seq<u8>, i: int, t: Seq<u8>, j: int)
    requires
        0 <= i <= s.len(),
        0 <= j <= t.len(),
        s.subrange(i, s.len() as int) == t.subrange(j, t.len() as int),
    ensures
        slash_from(s, i) - i == slash_from(t, j) - j,
    decreases s.len() - i,
{
    assert(s.subrange(i, s.len() as int).len() == t.subrange(j, t.len() as int).len());
    assert(s.subrange(i, s.len() as int).len() == s.len() - i);
    assert(t.subrange(j, t.len() as int).len() == t.len() - j);
    if i < s.len() {
        assert(j < t.len());
        assert(s[i] == s.subrange(i, s.len() as int)[0]);
        assert(t[j] == t.subrange(j, t.len() as int)[0]);
        if s[i] != slash() {
            assert(s.subrange(i + 1, s.len() as int) =~= s.subrange(i, s.len() as int).subrange(
                1,
                s.len() - i,
            ));
            assert(t.subrange(j + 1, t.len() as int) =~= t.subrange(j, t.len() as int).subrange(
                1,
                t.len() - j,
            ));
            lemma_slash_from_shift(s, i + 1, t, j + 1);
        }
    }
}

/// The components from a position depend only on the bytes from there on.
pub proof fn lemma_pieces_shift(s: Seq<u8>, i: int, t: Seq<u8>, j: int)
    requires
        0 <= i <= s.len(),
        0 <= j <= t.len(),
        s.subrange(i, s.len() as int) == t.subrange(j, t.len() as int),
    ensures
        pieces_from(s, i) == pieces_from(t, j),
    decreases s.len() - i,
{
    if i < s.len() {
        lemma_slash_from_shift(s, i, t, j);
        lemma_slash_from(s, i);
        lemma_slash_from(t, j);
        let k = slash_from(s, i);
        let l = slash_from(t, j);
        assert(s.subrange(i, k) =~= t.subrange(j, l)) by {
            assert forall|x: int| 0 <= x < k - i implies #[trigger] s.subrange(i, k)[x]
                == t.subrange(j, l)[x] by {
                assert(s[i + x] == s.subrange(i, s.len() as int)[x]);
                assert(t[j + x] == t.subrange(j, t.len() as int)[x]);
            }
        }
        if k < s.len() {
            assert(s.subrange(k + 1, s.len() as int) =~= t.subrange(l + 1, t.len() as int)) by {
                assert forall|x: int| 0 <= x < s.len() - (k + 1) implies #[trigger] s.subrange(
                    k + 1,
                    s.len() as int,
                )[x] == t.subrange(l + 1, t.len() as int)[x] by {
                    assert(s[k + 1 + x] == s.subrange(i, s.len() as int)[k + 1 + x - i]);
                    assert(t[l + 1 + x] == t.subrange(j, t.len() as int)[l + 1 + x - j]);
                }
            }
            lemma_pieces_shift(s, k + 1, t, l + 1);
        }
    } else {
        assert(t.subrange(j, t.len() as int).len() == 0);
    }
}

/// Splitting at a `/`: the components before it, then those after it.
pub proof fn lemma_pieces_split(s: Seq<u8>, i: int, j: int)
    requires
        0 <= i <= j < s.len(),
        s[j] == slash(),
    ensures
        pieces_from(s, i) == pieces_from(s.subrange(0, j), i) + pieces_from(s, j + 1),
    decreases j - i,
{
    let a = s.subrange(0, j);
    lemma_slash_from(s, i);
    let k = slash_from(s, i);
    assert(k <= j) by {
        if k > j {
            assert(s[j] != slash());
        }
    }
    lemma_slash_from(a, i);
    let ka = slash_from(a, i);
    if k < j {
        assert(ka == k) by {
            assert forall|x: int| i <= x < k implies #[trigger] a[x] != slash() by {
                assert(a[x] == s[x]);
            }
            assert(a[k] == s[k]);
            lemma_slash_from_unique(a, i, k);
        }
        assert(a.subrange(i, k) =~= s.subrange(i, k));
        lemma_pieces_split(s, k + 1, j);
        assert(a.subrange(0, j) =~= a);
    } else {
        assert(ka == j) by {
            assert forall|x: int| i <= x < j implies #[trigger] a[x] != slash() by {
                assert(a[x] == s[x]);
            }
            lemma_slash_from_unique(a, i, j);
        }
        assert(a.subrange(i, j) =~= s.subrange(i, j));
        if i < j {
            assert(pieces_from(a, i) == seq![a.subrange(i, j)] + seq![]);
        } else {
            assert(pieces_from(a, i) =~= seq![]);
        }
    }
}

/// The first `/` at or after `i` is at `k` when no `/` lies before it and `k`
/// holds one or is the end.
pub proof fn lemma_slash_from_unique(s: Seq<u8>, i: int, k: int)
    requires
        0 <= i <= k <= s.len(),
        forall|x: int| i <= x < k ==> #[trigger] s[x] != slash(),
        k < s.len() ==> s[k] == slash(),
    ensures
        slash_from(s, i) == k,
    decreases k - i,
{
    if i < k {
        lemma_slash_from_unique(s, i + 1, k);
    }
}

/// A name read alone is one component.
pub proof fn lemma_pieces_of_name(s: Seq<u8>, i: int)
    requires
        0 <= i < s.len(),
        is_name(s.subrange(i, s.len() as int)),
    ensures
        pieces_from(s, i) == seq![s.subrange(i, s.len() as int)],
{
    assert forall|x: int| i <= x < s.len() implies #[trigger] s[x] != slash() by {
        assert(s[x] == s.subrange(i, s.len() as int)[x - i]);
    }
    lemma_slash_from_unique(s, i, s.len() as int);
}

/// The components of names joined by `/` are the names.
pub proof fn lemma_pieces_join(ps: Seq<Seq<u8>>)
    requires
        forall|i: int| 0 <= i < ps.len() ==> is_name(#[trigger] ps[i]),
    ensures
        pieces(join_names(ps)) == ps,
    decreases ps.len(),
{
    if ps.len() == 0 {
        assert(pieces(join_names(ps)) =~= ps);
    } else if ps.len() == 1 {
        let n = ps[0];
        assert(n.subrange(0, n.len() as int) =~= n);
        lemma_pieces_of_name(n, 0);
        assert(pieces(join_names(ps)) =~= ps);
    } else {
        let init = ps.drop_last();
        let x = join_names(init);
        let y = ps.last();
        let s = x + seq![slash()] + y;
        assert(join_names(ps) == s);
        lemma_pieces_join(init);
        lemma_pieces_split(s, 0, x.len() as int);
        assert(s.subrange(0, x.len() as int) =~= x);
        assert(s.subrange(x.len() as int + 1, s.len() as int) =~= y);
        lemma_pieces_of_name(s, x.len() as int + 1);
        assert(pieces(s) =~= ps);
    }
}

/// Every component between separators is a name.
pub proof fn lemma_pieces_are_names(s: Seq<u8>, i: int)
    requires
        0 <= i <= s.len(),
    ensures
        forall|k: int| 0 <= k < pieces_from(s, i).len() ==> is_name(#[trigger] pieces_from(s, i)[k]),
    decreases s.len() - i,
{
    if i < s.len() {
        lemma_slash_from(s, i);
        let k = slash_from(s, i);
        if k < s.len() {
            lemma_pieces_are_names(s, k + 1);
        }
        let rest = if k < s.len() {
            pieces_from(s, k + 1)
        } else {
            seq![]
        };
        if k > i {
            let head = s.subrange(i, k);
            assert(is_name(head)) by {
                assert forall|x: int| 0 <= x < head.len() implies #[trigger] head[x] != slash() by {
                    assert(head[x] == s[i + x]);
                }
            }
            assert forall|m: int| 0 <= m < pieces_from(s, i).len() implies is_name(
                #[trigger] pieces_from(s, i)[m],
            ) by {
                if m > 0 {
                    assert(pieces_from(s, i)[m] == rest[m - 1]);
                }
            }
        }
    }
}

/// Resolving keeps only canonical components.
pub proof fn lemma_resolve_canonical(abs: bool, ps: Seq<Seq<u8>>)
    requires
        forall|i: int| 0 <= i < ps.len() ==> is_name(#[trigger] ps[i]),
    ensures
        canonical(abs, resolve(abs, ps)),
    decreases ps.len(),
{
    if ps.len() > 0 {
        let init = ps.drop_last();
        assert forall|i: int| 0 <= i < init.len() implies is_name(#[trigger] init[i]) by {
            assert(init[i] == ps[i]);
        }
        lemma_resolve_canonical(abs, init);
        let acc = resolve(abs, init);
        let c = ps.last();
        assert(is_name(c)) by {
            assert(c == ps[ps.len() - 1]);
        }
        let r = resolve(abs, ps);
        assert forall|i: int| 0 <= i < r.len() implies {
            &&& is_name(#[trigger] r[i])
            &&& r[i] != dot()
            &&& (r[i] == dot_dot() ==> i == 0 && !abs)
        } by {
            if i < acc.len() {
                assert(r[i] == acc[i]);
            }
        }
    }
}

/// Resolving canonical components changes nothing.
pub proof fn lemma_resolve_fixed(abs: bool, ps: Seq<Seq<u8>>)
    requires
        canonical(abs, ps),
    ensures
        resolve(abs, ps) == ps,
    decreases ps.len(),
{
    if ps.len() > 0 {
        let init = ps.drop_last();
        assert(canonical(abs, init)) by {
            assert forall|i: int| 0 <= i < init.len() implies {
                &&& is_name(#[trigger] init[i])
                &&& init[i] != dot()
                &&& (init[i] == dot_dot() ==> i == 0 && !abs)
            } by {
                assert(init[i] == ps[i]);
            }
        }
        lemma_resolve_fixed(abs, init);
        let c = ps.last();
        assert(c == ps[ps.len() - 1]);
        if c == dot_dot() {
            assert(init.len() == 0);
        }
        assert(resolve(abs, ps) =~= ps);
    }
}

/// A normal form keeps the absoluteness of the path, and, unless it is the
/// `.` of an empty relative path, reads back as the components that
/// resolving kept.
proof fn lemma_normal_form_reads_back(s: Seq<u8>)
    ensures
        canonical(is_absolute(s), resolve(is_absolute(s), pieces(s))),
        is_absolute(normal_form(s)) == is_absolute(s),
        (is_absolute(s) || resolve(is_absolute(s), pieces(s)).len() > 0) ==> pieces(normal_form(s))
            == resolve(is_absolute(s), pieces(s)),
        (!is_absolute(s) && resolve(is_absolute(s), pieces(s)).len() == 0) ==> normal_form(s)
            == dot(),
{
    let abs = is_absolute(s);
    lemma_pieces_are_names(s, 0);
    lemma_resolve_canonical(abs, pieces(s));
    let r = resolve(abs, pieces(s));
    let out = render(abs, r);
    assert forall|i: int| 0 <= i < r.len() implies is_name(#[trigger] r[i]) by {}
    if abs {
        let j = join_names(r);
        assert(out == seq![slash()] + j);
        assert(is_absolute(out));
        lemma_pieces_join(r);
        assert(out.subrange(1, out.len() as int) =~= j);
        assert(j.subrange(0, j.len() as int) =~= j);
        lemma_pieces_shift(out, 1, j, 0);
        assert(pieces(out) == pieces_from(out, 1)) by {
            assert(slash_from(out, 0) == 0);
            if out.len() > 1 {
            } else {
                assert(pieces_from(out, 1) =~= seq![]);
            }
        }
    } else if r.len() == 0 {
        assert(out == dot());
    } else {
        assert(out == join_names(r));
        lemma_pieces_join(r);
        lemma_join_starts_with_name(r);
        assert(!is_absolute(out));
    }
}

/// The normal form of a path is its own normal form.
pub proof fn lemma_normalize_idempotent(s: Seq<u8>)
    ensures
        normal_form(normal_form(s)) == normal_form(s),
{
    let abs = is_absolute(s);
    let r = resolve(abs, pieces(s));
    let out = normal_form(s);
    lemma_normal_form_reads_back(s);
    if abs || r.len() > 0 {
        lemma_resolve_fixed(abs, r);
    } else {
        assert(!is_absolute(out));
        lemma_pieces_of_name(out, 0);
        assert(out.subrange(0, 1) =~= out);
        assert(pieces(out) == seq![dot()]);
        let one: Seq<Seq<u8>> = seq![dot()];
        assert(one.drop_last() =~= Seq::<Seq<u8>>::empty());
        assert(resolve(false, one.drop_last()) == Seq::<Seq<u8>>::empty());
        assert(one.last() == dot());
        assert(resolve(false, one) == Seq::<Seq<u8>>::empty());
    }
}

/// A normal form has no empty or `.` components, and `..` only as the first
/// component of a relative path; the one exception is `.` itself, the normal
/// form of an empty relative path.
pub proof fn lemma_normal_form_canonical(s: Seq<u8>)
    ensures
        normal_form(s) == dot() || canonical(is_absolute(normal_form(s)), pieces(normal_form(s))),
{
    lemma_normal_form_reads_back(s);
}

// ---------------------------------------------------------------------------
// A normal form of UTF-8 bytes is UTF-8.
// ---------------------------------------------------------------------------

/// A single ASCII byte is UTF-8.
proof fn lemma_ascii_byte_utf8(b: u8)
    requires
        b < 0x80,
    ensures
        valid_utf8(seq![b]),
{
    let t = seq![b];
    assert(t.subrange(1, 1) =~= Seq::<u8>::empty());
    assert(valid_utf8(t.subrange(1, 1)));
}

/// `.` and `..` are UTF-8.
proof fn lemma_dots_utf8()
    ensures
        valid_utf8(dot()),
        valid_utf8(dot_dot()),
{
    lemma_ascii_byte_utf8('.' as u8);
    assert(dot_dot() =~= dot() + dot());
    valid_utf8_concat(dot(), dot());
}

/// In UTF-8 bytes, the positions at and after a `/` start characters.
proof fn lemma_slash_boundaries(s: Seq<u8>, i: int)
    requires
        valid_utf8(s),
        0 <= i < s.len(),
        s[i] == slash(),
    ensures
        is_char_boundary(s, i),
        is_char_boundary(s, i + 1),
{
    is_char_boundary_iff_not_is_continuation_byte(s, i);
    is_char_boundary_start_end_of_seq(s);
    valid_utf8_split(s, i);
    let t = s.subrange(i, s.len() as int);
    assert(t[0] == slash());
    let u = t.subrange(1, t.len() as int);
    assert(valid_utf8(u));
    if i + 1 < s.len() {
        assert(u[0] == s[i + 1]);
        is_char_boundary_start_end_of_seq(u);
        is_char_boundary_iff_not_is_continuation_byte(u, 0);
        assert(!is_continuation_byte(s[i + 1]));
        is_char_boundary_iff_not_is_continuation_byte(s, i + 1);
    }
}

/// The bytes between two character starts of UTF-8 bytes are UTF-8.
proof fn lemma_between_boundaries(s: Seq<u8>, i: int, k: int)
    requires
        valid_utf8(s),
        0 <= i <= k <= s.len(),
        is_char_boundary(s, i),
        is_char_boundary(s, k),
    ensures
        valid_utf8(s.subrange(i, k)),
{
    valid_utf8_split(s, k);
    let a = s.subrange(0, k);
    if i == k {
        assert(s.subrange(i, k) =~= Seq::<u8>::empty());
    } else {
        is_char_boundary_iff_not_is_continuation_byte(s, i);
        assert(a[i] == s[i]);
        is_char_boundary_iff_not_is_continuation_byte(a, i);
        valid_utf8_split(a, i);
        assert(a.subrange(i, k) =~= s.subrange(i, k));
    }
}

/// The components of UTF-8 bytes are UTF-8.
proof fn lemma_pieces_utf8(s: Seq<u8>, i: int)
    requires
        valid_utf8(s),
        0 <= i <= s.len(),
        is_char_boundary(s, i),
    ensures
        forall|m: int| 0 <= m < pieces_from(s, i).len() ==> valid_utf8(#[trigger] pieces_from(s, i)[m]),
    decreases s.len() - i,
{
    if i < s.len() {
        lemma_slash_from(s, i);
        let k = slash_from(s, i);
        is_char_boundary_start_end_of_seq(s);
        if k < s.len() {
            lemma_slash_boundaries(s, k);
            lemma_pieces_utf8(s, k + 1);
        }
        lemma_between_boundaries(s, i, k);
        let rest = if k < s.len() {
            pieces_from(s, k + 1)
        } else {
            seq![]
        };
        assert forall|m: int| 0 <= m < pieces_from(s, i).len() implies valid_utf8(
            #[trigger] pieces_from(s, i)[m],
        ) by {
            if k > i {
                if m > 0 {
                    assert(pieces_from(s, i)[m] == rest[m - 1]);
                }
            } else {
                assert(pieces_from(s, i)[m] == rest[m]);
            }
        }
    }
}

/// Resolving UTF-8 components keeps them UTF-8.
proof fn lemma_resolve_utf8(abs: bool, ps: Seq<Seq<u8>>)
    requires
        forall|i: int| 0 <= i < ps.len() ==> valid_utf8(#[trigger] ps[i]),
    ensures
        forall|i: int| 0 <= i < resolve(abs, ps).len() ==> valid_utf8(#[trigger] resolve(abs, ps)[i]),
    decreases ps.len(),
{
    if ps.len() > 0 {
        let init = ps.drop_last();
        assert forall|i: int| 0 <= i < init.len() implies valid_utf8(#[trigger] init[i]) by {
            assert(init[i] == ps[i]);
        }
        lemma_resolve_utf8(abs, init);
        lemma_dots_utf8();
        let acc = resolve(abs, init);
        let r = resolve(abs, ps);
        assert(valid_utf8(ps.last())) by {
            assert(ps.last() == ps[ps.len() - 1]);
        }
        assert forall|i: int| 0 <= i < r.len() implies valid_utf8(#[trigger] r[i]) by {
            if i < acc.len() {
                assert(r[i] == acc[i]);
            }
        }
    }
}

/// UTF-8 names joined by `/` are UTF-8.
proof fn lemma_join_utf8(ps: Seq<Seq<u8>>)
    requires
        forall|i: int| 0 <= i < ps.len() ==> valid_utf8(#[trigger] ps[i]),
    ensures
        valid_utf8(join_names(ps)),
    decreases ps.len(),
{
    if ps.len() == 0 {
    } else if ps.len() == 1 {
        assert(valid_utf8(ps[0]));
    } else {
        let init = ps.drop_last();
        assert forall|i: int| 0 <= i < init.len() implies valid_utf8(#[trigger] init[i]) by {
            assert(init[i] == ps[i]);
        }
        lemma_join_utf8(init);
        lemma_ascii_byte_utf8(slash());
        valid_utf8_concat(join_names(init), seq![slash()]);
        assert(valid_utf8(ps.last())) by {
            assert(ps.last() == ps[ps.len() - 1]);
        }
        valid_utf8_concat(join_names(init) + seq![slash()], ps.last());
    }
}

/// The normal form of a path is UTF-8 (the path itself being UTF-8 or empty).
pub proof fn lemma_normal_form_utf8(s: Seq<u8>)
    requires
        valid_utf8(s),
    ensures
        valid_utf8(normal_form(s)),
{
    let abs = is_absolute(s);
    is_char_boundary_start_end_of_seq(s);
    lemma_pieces_utf8(s, 0);
    lemma_resolve_utf8(abs, pieces(s));
    let r = resolve(abs, pieces(s));
    lemma_join_utf8(r);
    lemma_dots_utf8();
    if abs {
        lemma_ascii_byte_utf8(slash());
        valid_utf8_concat(seq![slash()], join_names(r));
    }
}

/// Normalizing twice gives what normalizing once gives: the normal form is
/// UTF-8, so the second call reads it as it is, and it is its own normal form.
pub proof fn lemma_normalize_twice(p: Seq<u8>)
    ensures
        valid_utf8(normal_form(as_path(p))),
        normal_form(as_path(normal_form(as_path(p)))) == normal_form(as_path(p)),
{
    let s = as_path(p);
    assert(valid_utf8(Seq::<u8>::empty()));
    lemma_normal_form_utf8(s);
    lemma_normalize_idempotent(s);
}

/// Names joined by `/` start with the first byte of the first name.
pub proof fn lemma_join_starts_with_name(ps: Seq<Seq<u8>>)
    requires
        ps.len() > 0,
        forall|i: int| 0 <= i < ps.len() ==> is_name(#[trigger] ps[i]),
    ensures
        join_names(ps).len() > 0,
        join_names(ps)[0] == ps[0][0],
    decreases ps.len(),
{
    assert(is_name(ps[0]));
    if ps.len() > 1 {
        let init = ps.drop_last();
        assert forall|i: int| 0 <= i < init.len() implies is_name(#[trigger] init[i]) by {
            assert(init[i] == ps[i]);
        }
        lemma_join_starts_with_name(init);
        assert(init[0] == ps[0]);
    }
}

} // verus!

//! Lexical path text: joining, components, relative paths and the Windows
//! verbatim prefix.
//!
//! Paths are `/`-separated text. Two paths are the same path when their
//! component lists (`components`) are equal, as with `std::path::Path`'s `==`.
use vstd::prelude::*;
use crate::text::{
    ascii_letter, chars_of, is_ascii_letter, matches_at, push_char, push_str, range_holds, segments,
    split_ranges, starts_with, str_eq, string_of,
};

verus! {

/// The views of a vector of strings.
pub open spec fn texts(v: Seq<String>) -> Seq<Seq<char>> {
    v.map_values(|s: String| s@)
}

/// `base` joined with `part` (`Path::join` on `/`-separated paths: an
/// absolute `part` replaces `base`).
pub open spec fn joined(base: Seq<char>, part: Seq<char>) -> Seq<char> {
    if part.len() > 0 && part[0] == '/' {
        part
    } else if base.len() == 0 {
        part
    } else if base.last() == '/' {
        base + part
    } else {
        base + seq!['/'] + part
    }
}

/// `base` joined with `part`.
pub fn join(base: &str, part: &str) -> (r: String)
    ensures
        r@ == joined(base@, part@),
{
    let b = chars_of(base);
    let p = chars_of(part);
    if p.len() > 0 && p[0] == '/' {
        return string_of(&p, 0, p.len());
    }
    let mut out = string_of(&b, 0, b.len());
    proof {
        assert(b@.subrange(0, b@.len() as int) =~= b@);
        assert(p@.subrange(0, p@.len() as int) =~= p@);
    }
    if b.len() > 0 && b[b.len() - 1] != '/' {
        push_char(&mut out, '/');
    }
    push_str(&mut out, part);
    out
}

/// A segment that names a directory entry (not empty, not `.`).
pub open spec fn is_kept(seg: Seq<char>) -> bool {
    seg.len() > 0 && seg != seq!['.']
}

/// The segments of `segs` that name directory entries, in order.
pub open spec fn kept(segs: Seq<Seq<char>>) -> Seq<Seq<char>>
    decreases segs.len(),
{
    if segs.len() == 0 {
        seq![]
    } else if is_kept(segs.last()) {
        kept(segs.drop_last()).push(segs.last())
    } else {
        kept(segs.drop_last())
    }
}

/// The components of a path: `/` first for an absolute path, then its
/// named entries (empty and `.` segments dropped).
pub open spec fn components(p: Seq<char>) -> Seq<Seq<char>> {
    root_part(p) + kept(segments(p, '/'))
}

pub open spec fn root_part(p: Seq<char>) -> Seq<Seq<char>> {
    if p.len() > 0 && p[0] == '/' {
        seq![seq!['/']]
    } else {
        seq![]
    }
}

/// The components of the parent directory (`Path::parent`; none for a root
/// or an empty path).
pub open spec fn parent_components(p: Seq<char>) -> Seq<Seq<char>> {
    let c = components(p);
    if c.len() == 0 || (c.len() == 1 && root_part(p).len() == 1) {
        seq![]
    } else {
        c.drop_last()
    }
}

fn is_dot(chars: &Vec<char>, from: usize, to: usize) -> (r: bool)
    requires
        from <= to <= chars.len(),
    ensures
        r == (chars@.subrange(from as int, to as int) == seq!['.']),
{
    if to - from == 1 && chars[from] == '.' {
        assert(chars@.subrange(from as int, to as int) =~= seq!['.']);
        true
    } else {
        proof {
            let sub = chars@.subrange(from as int, to as int);
            assert(sub.len() == to - from);
            if sub == seq!['.'] {
                assert(sub.len() == 1);
                assert(sub[0] == chars@[from as int]);
            }
        }
        false
    }
}

/// The components of `p`.
pub fn path_components(p: &str) -> (r: Vec<String>)
    ensures
        texts(r@) == components(p@),
{
    let chars = chars_of(p);
    let ranges = split_ranges(&chars, '/');
    let ghost segs = segments(chars@, '/');
    let mut out: Vec<String> = Vec::new();
    if chars.len() > 0 && chars[0] == '/' {
        let mut root = String::new();
        push_char(&mut root, '/');
        out.push(root);
    }
    assert(texts(out@) =~= root_part(p@));
    assert(segs.take(0) =~= seq![]);
    let mut i: usize = 0;
    while i < ranges.len()
        invariant
            chars@ == p@,
            segs == segments(chars@, '/'),
            ranges@.len() == segs.len(),
            forall|k: int| 0 <= k < ranges@.len() ==> #[trigger] range_holds(chars@, ranges@[k], segs[k]),
            i <= ranges.len(),
            texts(out@) == root_part(p@) + kept(segs.take(i as int)),
        decreases ranges.len() - i,
    {
        let (from, to) = ranges[i];
        assert(range_holds(chars@, ranges@[i as int], segs[i as int]));
        let ghost seg = segs[i as int];
        assert(segs.take(i + 1).drop_last() =~= segs.take(i as int));
        assert(segs.take(i + 1).last() == seg);
        if from < to && !is_dot(&chars, from, to) {
            let piece = string_of(&chars, from, to);
            let ghost old_out = out@;
            out.push(piece);
            assert(is_kept(seg));
            assert(kept(segs.take(i + 1)) == kept(segs.take(i as int)).push(seg));
            assert(texts(out@) =~= texts(old_out).push(seg));
            assert(texts(out@) =~= root_part(p@) + kept(segs.take(i + 1)));
        } else {
            assert(kept(segs.take(i + 1)) == kept(segs.take(i as int)));
        }
        i = i + 1;
    }
    assert(segs.take(ranges.len() as int) =~= segs);
    out
}

/// The components of the parent directory of `p`.
pub fn parent_path_components(p: &str) -> (r: Vec<String>)
    ensures
        texts(r@) == parent_components(p@),
{
    let mut c = path_components(p);
    let absolute = p.unicode_len() > 0 && p.get_char(0) == '/';
    if c.len() == 0 || (c.len() == 1 && absolute) {
        proof {
            assert(root_part(p@).len() == 1 <==> absolute);
        }
        return Vec::new();
    }
    proof {
        assert(root_part(p@).len() == 1 <==> absolute);
    }
    let ghost before = c@;
    c.pop();
    assert(texts(c@) =~= texts(before).drop_last());
    c
}

/// Whether two component lists are equal.
pub fn same_components(a: &Vec<String>, b: &Vec<String>) -> (r: bool)
    ensures
        r == (texts(a@) == texts(b@)),
{
    if a.len() != b.len() {
        assert(texts(a@).len() != texts(b@).len());
        return false;
    }
    let mut i: usize = 0;
    while i < a.len()
        invariant
            a.len() == b.len(),
            i <= a.len(),
            forall|k: int| 0 <= k < i ==> a@[k]@ == b@[k]@,
        decreases a.len() - i,
    {
        if !str_eq(a[i].as_str(), b[i].as_str()) {
            assert(texts(a@)[i as int] != texts(b@)[i as int]);
            return false;
        }
        i = i + 1;
    }
    assert(texts(a@) =~= texts(b@));
    true
}

/// Parts joined with `/`.
pub open spec fn slash_joined(parts: Seq<Seq<char>>) -> Seq<char>
    decreases parts.len(),
{
    if parts.len() == 0 {
        seq![]
    } else if parts.len() == 1 {
        parts[0]
    } else {
        slash_joined(parts.drop_last()) + seq!['/'] + parts.last()
    }
}

/// Length of the longest common prefix of `a` and `b`.
pub open spec fn common_prefix_len(a: Seq<Seq<char>>, b: Seq<Seq<char>>) -> nat
    decreases a.len(),
{
    if a.len() == 0 || b.len() == 0 || a[0] != b[0] {
        0
    } else {
        1 + common_prefix_len(a.drop_first(), b.drop_first())
    }
}

/// The parts of the path from `base` to `target`: `..` for each component
/// of `base` past the common prefix, then the rest of `target`.
pub open spec fn relative_parts(base: Seq<Seq<char>>, target: Seq<Seq<char>>) -> Seq<Seq<char>> {
    let k = common_prefix_len(base, target) as int;
    Seq::new((base.len() - k) as nat, |i: int| seq!['.', '.']) + target.skip(k)
}

/// The path from `base` to `target` as `/`-separated text, `.` when they are
/// the same.
pub open spec fn relative_text(base: Seq<Seq<char>>, target: Seq<Seq<char>>) -> Seq<char> {
    let parts = relative_parts(base, target);
    if parts.len() == 0 {
        seq!['.']
    } else {
        slash_joined(parts)
    }
}

proof fn lemma_common_prefix(a: Seq<Seq<char>>, b: Seq<Seq<char>>, i: int)
    requires
        0 <= i <= a.len(),
        i <= b.len(),
        forall|k: int| 0 <= k < i ==> a[k] == b[k],
    ensures
        common_prefix_len(a, b) == i + common_prefix_len(a.skip(i), b.skip(i)),
    decreases i,
{
    if i > 0 {
        assert(a[0] == b[0]);
        lemma_common_prefix(a.drop_first(), b.drop_first(), i - 1);
        assert(a.drop_first().skip(i - 1) =~= a.skip(i));
        assert(b.drop_first().skip(i - 1) =~= b.skip(i));
    } else {
        assert(a.skip(0) =~= a);
        assert(b.skip(0) =~= b);
    }
}

/// Appends `part` to `out`, with a `/` first unless `out` is the start.
fn push_part(out: &mut String, parts: Ghost<Seq<Seq<char>>>, first: bool, part: &str)
    requires
        old(out)@ == slash_joined(parts@),
        first == (parts@.len() == 0),
    ensures
        final(out)@ == slash_joined(parts@.push(part@)),
{
    let ghost ps = parts@.push(part@);
    assert(ps.drop_last() =~= parts@);
    if !first {
        push_char(out, '/');
    } else {
        assert(old(out)@.len() == 0);
    }
    push_str(out, part);
    assert(final(out)@ =~= slash_joined(ps));
}

/// The path from `base` to `target` (component lists), `/`-separated.
pub fn relative_components(base: &Vec<String>, target: &Vec<String>) -> (r: String)
    ensures
        r@ == relative_text(texts(base@), texts(target@)),
{
    let ghost a = texts(base@);
    let ghost b = texts(target@);
    let mut k: usize = 0;
    while k < base.len() && k < target.len() && str_eq(base[k].as_str(), target[k].as_str())
        invariant
            k <= base.len(),
            k <= target.len(),
            a == texts(base@),
            b == texts(target@),
            forall|j: int| 0 <= j < k ==> a[j] == b[j],
        decreases base.len() - k,
    {
        k = k + 1;
    }
    proof {
        lemma_common_prefix(a, b, k as int);
        if k < a.len() && k < b.len() {
            assert(a.skip(k as int)[0] == a[k as int]);
            assert(b.skip(k as int)[0] == b[k as int]);
        }
        assert(common_prefix_len(a.skip(k as int), b.skip(k as int)) == 0);
    }
    let ghost parts = relative_parts(a, b);
    let mut out = String::new();
    let ghost mut done: Seq<Seq<char>> = seq![];
    let mut j: usize = k;
    while j < base.len()
        invariant
            k <= j <= base.len(),
            a == texts(base@),
            parts == relative_parts(a, b),
            common_prefix_len(a, b) == k,
            done == parts.take(j - k),
            out@ == slash_joined(done),
        decreases base.len() - j,
    {
        proof {
            assert(done.len() == j - k);
        }
        push_part(&mut out, Ghost(done), j == k, "..");
        proof {
            assert("..".view() == seq!['.', '.']) by {
                reveal_strlit("..");
            }
            done = done.push(seq!['.', '.']);
            assert(done =~= parts.take(j + 1 - k));
        }
        j = j + 1;
    }
    let mut t: usize = k;
    while t < target.len()
        invariant
            k <= t <= target.len(),
            j == base.len(),
            a == texts(base@),
            b == texts(target@),
            k <= base.len(),
            parts == relative_parts(a, b),
            common_prefix_len(a, b) == k,
            done == parts.take(base.len() - k + t - k),
            out@ == slash_joined(done),
        decreases target.len() - t,
    {
        proof {
            assert(a.len() == base.len());
            assert(b.len() == target.len());
            assert(b.skip(k as int).len() == target.len() - k);
            assert(parts.len() == base.len() - k + target.len() - k);
            assert(done.len() == base.len() - k + t - k);
        }
        push_part(&mut out, Ghost(done), base.len() == k && t == k, target[t].as_str());
        proof {
            let idx = base.len() - k + t - k;
            assert(parts[idx] == b.skip(k as int)[t - k]);
            assert(parts[idx] == target@[t as int]@);
            done = done.push(target@[t as int]@);
            assert(done =~= parts.take(base.len() - k + t + 1 - k));
        }
        t = t + 1;
    }
    proof {
        assert(done =~= parts);
    }
    if base.len() == k && target.len() == k {
        let mut dot = String::new();
        push_char(&mut dot, '.');
        return dot;
    }
    out
}

/// `\\?\` as characters.
pub open spec fn verbatim_marker() -> Seq<char> {
    seq!['\\', '\\', '?', '\\']
}

/// `\\?\UNC\` as characters.
pub open spec fn verbatim_unc_marker() -> Seq<char> {
    seq!['\\', '\\', '?', '\\', 'U', 'N', 'C', '\\']
}

/// The drive form `X:` (an ASCII letter and a colon) at the start of `s`,
/// alone or followed by a separator.
pub open spec fn starts_with_drive(s: Seq<char>) -> bool {
    s.len() >= 2 && is_ascii_letter(s[0]) && s[1] == ':' && (s.len() == 2 || s[2] == '\\' || s[2]
        == '/')
}

/// A path without the extended-length prefix that Windows' canonical paths
/// carry: `\\?\C:\x` becomes `C:\x` and `\\?\UNC\server\share\x` becomes
/// `\\server\share\x`; any other path is unchanged.
pub open spec fn without_verbatim_prefix(p: Seq<char>) -> Seq<char> {
    if starts_with(p, verbatim_unc_marker()) {
        seq!['\\', '\\'] + p.skip(8)
    } else if starts_with(p, verbatim_marker()) && starts_with_drive(p.skip(4)) {
        p.skip(4)
    } else {
        p
    }
}

fn has_prefix(chars: &Vec<char>, prefix: &Vec<char>) -> (r: bool)
    ensures
        r == starts_with(chars@, prefix@),
{
    if prefix.len() > chars.len() {
        return false;
    }
    matches_at(chars, prefix, 0)
}

/// `p` without a Windows extended-length (`\\?\`) prefix. Only Windows
/// paths have such prefixes: on other hosts (`windows` false) the path is
/// left as it is.
pub fn strip_verbatim_prefix(p: &str, windows: bool) -> (r: String)
    ensures
        r@ == if windows {
            without_verbatim_prefix(p@)
        } else {
            p@
        },
{
    if !windows {
        let mut out = String::new();
        push_str(&mut out, p);
        return out;
    }
    let chars = chars_of(p);
    let unc = vec!['\\', '\\', '?', '\\', 'U', 'N', 'C', '\\'];
    let verbatim = vec!['\\', '\\', '?', '\\'];
    assert(unc@ =~= verbatim_unc_marker());
    assert(verbatim@ =~= verbatim_marker());
    if has_prefix(&chars, &unc) {
        let mut out = String::new();
        push_char(&mut out, '\\');
        push_char(&mut out, '\\');
        let rest = string_of(&chars, 8, chars.len());
        push_str(&mut out, rest.as_str());
        assert(chars@.subrange(8, chars@.len() as int) =~= chars@.skip(8));
        return out;
    }
    if has_prefix(&chars, &verbatim) {
        let n = chars.len();
        let drive = n >= 6 && ascii_letter(chars[4]) && chars[5] == ':' && (n == 6 || chars[6] == '\\'
            || chars[6] == '/');
        proof {
            let s = chars@.skip(4);
            assert(s.len() == n - 4);
            if n >= 6 {
                assert(s[0] == chars@[4] && s[1] == chars@[5]);
            }
            if n >= 7 {
                assert(s[2] == chars@[6]);
            }
        }
        if drive {
            assert(chars@.subrange(4, n as int) =~= chars@.skip(4));
            return string_of(&chars, 4, n);
        }
    }
    assert(chars@.subrange(0, chars@.len() as int) =~= chars@);
    string_of(&chars, 0, chars.len())
}

} // verus!

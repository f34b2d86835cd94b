//! Paths as text.
//!
//! A path is read by its characters alone; nothing here touches a file
//! system. A separator is `/` or `\`. A segment is a maximal run of
//! characters that are not separators.

use crate::text::{chars_of, same_chars, string_of};
use vstd::prelude::*;

verus! {

/// `c` separates segments.
pub open spec fn is_sep(c: char) -> bool {
    c == '/' || c == '\\'
}

/// Whether `c` separates segments.
pub fn is_separator(c: char) -> (r: bool)
    ensures
        r == is_sep(c),
{
    c == '/' || c == '\\'
}

/// The number of leading characters of `p` that are not separators.
pub open spec fn run_len(p: Seq<char>) -> int
    decreases p.len(),
{
    if p.len() == 0 || is_sep(p[0]) {
        0
    } else {
        1 + run_len(p.drop_first())
    }
}

/// The segments of `p`, in order.
pub open spec fn segment_texts(p: Seq<char>) -> Seq<Seq<char>>
    decreases p.len(),
    via segment_texts_decreases
{
    if p.len() == 0 {
        Seq::empty()
    } else if is_sep(p[0]) {
        segment_texts(p.drop_first())
    } else {
        seq![p.take(run_len(p))] + segment_texts(p.skip(run_len(p)))
    }
}

#[via_fn]
proof fn segment_texts_decreases(p: Seq<char>) {
    lemma_run_len_bounds(p);
}

pub proof fn lemma_run_len_bounds(p: Seq<char>)
    ensures
        0 <= run_len(p) <= p.len(),
        p.len() > 0 && !is_sep(p[0]) ==> run_len(p) > 0,
        run_len(p) < p.len() ==> is_sep(p[run_len(p)]),
        forall|k: int| 0 <= k < run_len(p) ==> !is_sep(#[trigger] p[k]),
    decreases p.len(),
{
    if p.len() > 0 && !is_sep(p[0]) {
        lemma_run_len_bounds(p.drop_first());
        let q = p.drop_first();
        assert forall|k: int| 0 <= k < run_len(p) implies !is_sep(#[trigger] p[k]) by {
            if k > 0 {
                assert(p[k] == q[k - 1]);
            }
        }
        if run_len(p) < p.len() {
            assert(p[run_len(p)] == q[run_len(q)]);
        }
    }
}

/// The views of a vector of character vectors.
pub open spec fn texts(v: Seq<Vec<char>>) -> Seq<Seq<char>> {
    Seq::new(v.len(), |i: int| v[i]@)
}

/// The segments of `p`, in order.
pub fn split_segments(p: &Vec<char>) -> (out: Vec<Vec<char>>)
    ensures
        texts(out@) == segment_texts(p@),
{
    let mut out: Vec<Vec<char>> = Vec::new();
    let mut pos: usize = 0;
    proof {
        assert(p@.skip(0) == p@);
        assert(texts(out@) =~= Seq::<Seq<char>>::empty());
    }
    while pos < p.len()
        invariant
            pos <= p.len(),
            segment_texts(p@) == texts(out@) + segment_texts(p@.skip(pos as int)),
        decreases p.len() - pos,
    {
        let ghost rest = p@.skip(pos as int);
        if is_separator(p[pos]) {
            proof {
                assert(rest[0] == p@[pos as int]);
                assert(rest.drop_first() == p@.skip(pos + 1));
            }
            pos = pos + 1;
        } else {
            let mut seg: Vec<char> = Vec::new();
            let start = pos;
            proof {
                lemma_run_len_bounds(rest);
                assert(rest.take(0) =~= seg@);
            }
            while pos < p.len() && !is_separator(p[pos])
                invariant
                    start <= pos <= p.len(),
                    rest == p@.skip(start as int),
                    pos - start <= run_len(rest),
                    seg@ == rest.take(pos - start),
                    0 <= run_len(rest) <= rest.len(),
                    run_len(rest) < rest.len() ==> is_sep(rest[run_len(rest)]),
                    forall|k: int| 0 <= k < run_len(rest) ==> !is_sep(#[trigger] rest[k]),
                decreases p.len() - pos,
            {
                proof {
                    assert(rest[pos - start] == p@[pos as int]);
                    if pos - start == run_len(rest) {
                        assert(is_sep(rest[run_len(rest)]));
                    }
                    assert(rest.take(pos - start + 1) == rest.take(pos - start).push(
                        rest[pos - start],
                    ));
                }
                seg.push(p[pos]);
                pos = pos + 1;
            }
            proof {
                if pos < p.len() {
                    assert(rest[pos - start] == p@[pos as int]);
                }
                assert(pos - start == run_len(rest));
                assert(rest.skip(run_len(rest)) == p@.skip(pos as int));
                assert(rest[0] == p@[start as int]);
                assert(texts(out@.push(seg)) =~= texts(out@) + seq![seg@]);
            }
            out.push(seg);
        }
    }
    proof {
        assert(p@.skip(pos as int).len() == 0);
    }
    out
}

/// Some segment of `p` is `name`.
pub open spec fn has_segment(p: Seq<char>, name: Seq<char>) -> bool {
    segment_texts(p).contains(name)
}

/// A path has a parent-directory component when one of its segments is `..`.
pub open spec fn has_parent_component(p: Seq<char>) -> bool {
    has_segment(p, seq!['.', '.'])
}

/// Whether one of the segments of `p` is `..`.
pub fn contains_parent_component(p: &str) -> (r: bool)
    ensures
        r == has_parent_component(p@),
{
    let chars = chars_of(p);
    let segs = split_segments(&chars);
    let mut dots: Vec<char> = Vec::new();
    dots.push('.');
    dots.push('.');
    assert(dots@ == seq!['.', '.']);
    let mut i: usize = 0;
    while i < segs.len()
        invariant
            i <= segs.len(),
            texts(segs@) == segment_texts(p@),
            dots@ == seq!['.', '.'],
            forall|j: int| 0 <= j < i ==> segment_texts(p@)[j] != dots@,
        decreases segs.len() - i,
    {
        proof {
            assert(texts(segs@)[i as int] == segs@[i as int]@);
        }
        if same_chars(&segs[i], &dots) {
            return true;
        }
        i = i + 1;
    }
    false
}

/// A drive prefix: an ASCII letter followed by a colon.
pub open spec fn has_drive_prefix(p: Seq<char>) -> bool {
    p.len() >= 2 && p[1] == ':' && (('a' <= p[0] && p[0] <= 'z') || ('A' <= p[0] && p[0] <= 'Z'))
}

/// A path is absolute when it starts with a separator, or with a drive
/// prefix followed by a separator.
pub open spec fn is_absolute(p: Seq<char>) -> bool {
    (p.len() >= 1 && is_sep(p[0])) || (has_drive_prefix(p) && p.len() >= 3 && is_sep(p[2]))
}

fn drive_prefixed(p: &Vec<char>) -> (r: bool)
    ensures
        r == has_drive_prefix(p@),
{
    p.len() >= 2 && p[1] == ':' && (('a' <= p[0] && p[0] <= 'z') || ('A' <= p[0] && p[0] <= 'Z'))
}

/// Whether the path is absolute.
pub fn is_absolute_path(p: &str) -> (r: bool)
    ensures
        r == is_absolute(p@),
{
    let chars = chars_of(p);
    (chars.len() >= 1 && is_separator(chars[0])) || (drive_prefixed(&chars) && chars.len() >= 3
        && is_separator(chars[2]))
}

/// What is left of a path once a drive prefix is taken away.
pub open spec fn without_drive(p: Seq<char>) -> Seq<char> {
    if has_drive_prefix(p) {
        p.skip(2)
    } else {
        p
    }
}

/// A path names a file-system root when nothing but a drive prefix and
/// separators is in it; it then has no parent.
pub open spec fn is_root(p: Seq<char>) -> bool {
    segment_texts(without_drive(p)).len() == 0
}

/// Whether the path names a file-system root.
pub fn is_system_root(p: &str) -> (r: bool)
    ensures
        r == is_root(p@),
{
    let chars = chars_of(p);
    let rest = if drive_prefixed(&chars) {
        let mut rest: Vec<char> = Vec::new();
        let mut i: usize = 2;
        while i < chars.len()
            invariant
                2 <= i <= chars.len(),
                rest@ == chars@.subrange(2, i as int),
            decreases chars.len() - i,
        {
            rest.push(chars[i]);
            i = i + 1;
            assert(chars@.subrange(2, i as int) == chars@.subrange(2, i - 1).push(
                chars@[i - 1],
            ));
        }
        assert(chars@.subrange(2, chars@.len() as int) == chars@.skip(2));
        rest
    } else {
        chars
    };
    let segs = split_segments(&rest);
    assert(texts(segs@).len() == segs@.len());
    segs.len() == 0
}

/// The length of `p` without its trailing separators.
pub open spec fn trimmed_len(p: Seq<char>) -> int
    decreases p.len(),
{
    if p.len() > 0 && is_sep(p.last()) {
        trimmed_len(p.drop_last())
    } else {
        p.len() as int
    }
}

/// Where the trailing run of characters that are not separators begins.
pub open spec fn tail_start(p: Seq<char>) -> int
    decreases p.len(),
{
    if p.len() > 0 && !is_sep(p.last()) {
        tail_start(p.drop_last())
    } else {
        p.len() as int
    }
}

pub proof fn lemma_trimmed_len_bounds(p: Seq<char>)
    ensures
        0 <= trimmed_len(p) <= p.len(),
    decreases p.len(),
{
    if p.len() > 0 && is_sep(p.last()) {
        lemma_trimmed_len_bounds(p.drop_last());
    }
}

pub proof fn lemma_tail_start_bounds(p: Seq<char>)
    ensures
        0 <= tail_start(p) <= p.len(),
    decreases p.len(),
{
    if p.len() > 0 && !is_sep(p.last()) {
        lemma_tail_start_bounds(p.drop_last());
    }
}

/// Where the last segment of `p` begins.
pub open spec fn name_start(p: Seq<char>) -> int {
    tail_start(p.take(trimmed_len(p)))
}

/// The last segment of `p`: its file name. Empty for a root and for the
/// empty path.
pub open spec fn file_name(p: Seq<char>) -> Seq<char> {
    p.subrange(name_start(p), trimmed_len(p))
}

/// The path of the directory that holds the last segment: what stands
/// before that segment, without the separators that end it, except that a
/// leading separator stays. Empty where the path has one segment and is
/// relative.
pub open spec fn parent_dir(p: Seq<char>) -> Seq<char> {
    let head = p.take(name_start(p));
    if trimmed_len(head) == 0 && head.len() > 0 {
        head.take(1)
    } else {
        head.take(trimmed_len(head))
    }
}

fn trimmed_end(p: &Vec<char>, upto: usize) -> (n: usize)
    requires
        upto <= p.len(),
    ensures
        n == trimmed_len(p@.take(upto as int)),
        n <= upto,
{
    let mut n = upto;
    while n > 0 && is_separator(p[n - 1])
        invariant
            n <= upto <= p.len(),
            trimmed_len(p@.take(upto as int)) == trimmed_len(p@.take(n as int)),
        decreases n,
    {
        proof {
            assert(p@.take(n as int).last() == p@[n - 1]);
            assert(p@.take(n as int).drop_last() == p@.take(n - 1));
        }
        n = n - 1;
    }
    proof {
        if n > 0 {
            assert(p@.take(n as int).last() == p@[n - 1]);
        }
    }
    n
}

fn tail_begin(p: &Vec<char>, upto: usize) -> (n: usize)
    requires
        upto <= p.len(),
    ensures
        n == tail_start(p@.take(upto as int)),
        n <= upto,
{
    let mut n = upto;
    while n > 0 && !is_separator(p[n - 1])
        invariant
            n <= upto <= p.len(),
            tail_start(p@.take(upto as int)) == tail_start(p@.take(n as int)),
        decreases n,
    {
        proof {
            assert(p@.take(n as int).last() == p@[n - 1]);
            assert(p@.take(n as int).drop_last() == p@.take(n - 1));
        }
        n = n - 1;
    }
    proof {
        if n > 0 {
            assert(p@.take(n as int).last() == p@[n - 1]);
        }
    }
    n
}

/// The characters of `p` from `from` up to `to`.
pub fn slice_chars(p: &Vec<char>, from: usize, to: usize) -> (out: Vec<char>)
    requires
        from <= to <= p.len(),
    ensures
        out@ == p@.subrange(from as int, to as int),
{
    let mut out: Vec<char> = Vec::new();
    let mut i = from;
    while i < to
        invariant
            from <= i <= to <= p.len(),
            out@ == p@.subrange(from as int, i as int),
        decreases to - i,
    {
        out.push(p[i]);
        i = i + 1;
        assert(p@.subrange(from as int, i as int) == p@.subrange(from as int, i - 1).push(
            p@[i - 1],
        ));
    }
    out
}

/// The file name of `p`, as characters.
pub fn file_name_chars(p: &Vec<char>) -> (out: Vec<char>)
    ensures
        out@ == file_name(p@),
{
    let end = trimmed_end(p, p.len());
    proof {
        assert(p@.take(p@.len() as int) == p@);
    }
    let start = tail_begin(p, end);
    slice_chars(p, start, end)
}

/// The file name of `p`.
pub fn file_name_of(p: &str) -> (out: String)
    ensures
        out@ == file_name(p@),
{
    let chars = chars_of(p);
    let name = file_name_chars(&chars);
    string_of(&name)
}

/// The parent directory of `p`, as characters.
pub fn parent_dir_chars(p: &Vec<char>) -> (out: Vec<char>)
    ensures
        out@ == parent_dir(p@),
{
    let end = trimmed_end(p, p.len());
    proof {
        assert(p@.take(p@.len() as int) == p@);
    }
    let start = tail_begin(p, end);
    let head_end = trimmed_end(p, start);
    proof {
        let head = p@.take(start as int);
        assert(head.len() == start);
        if head_end == 0 && start > 0 {
            assert(head.take(1) == p@.subrange(0, 1));
        } else {
            assert(head.take(head_end as int) == p@.subrange(0, head_end as int));
        }
    }
    if head_end == 0 && start > 0 {
        slice_chars(p, 0, 1)
    } else {
        slice_chars(p, 0, head_end)
    }
}

/// The parent directory of `p`.
pub fn parent_dir_of(p: &str) -> (out: String)
    ensures
        out@ == parent_dir(p@),
{
    let chars = chars_of(p);
    let dir = parent_dir_chars(&chars);
    string_of(&dir)
}

/// Where the extension of a file name begins: the position of its last
/// dot, unless that dot is the first character or there is none; then the
/// length of the name.
pub open spec fn stem_len(name: Seq<char>) -> int
    decreases name.len(),
{
    if name.len() == 0 {
        0
    } else if name.last() == '.' {
        if name.len() == 1 {
            1
        } else {
            name.len() - 1
        }
    } else {
        let inner = stem_len(name.drop_last());
        if inner == name.len() - 1 {
            name.len() as int
        } else {
            inner
        }
    }
}

pub proof fn lemma_stem_len_bounds(name: Seq<char>)
    ensures
        0 <= stem_len(name) <= name.len(),
        stem_len(name) < name.len() ==> stem_len(name) > 0 && name[stem_len(name)] == '.',
    decreases name.len(),
{
    if name.len() > 0 && name.last() != '.' {
        lemma_stem_len_bounds(name.drop_last());
        let inner = stem_len(name.drop_last());
        if inner < name.len() - 1 {
            assert(name.drop_last()[inner] == name[inner]);
        }
    }
}

/// The file name without its extension.
pub open spec fn file_stem(name: Seq<char>) -> Seq<char> {
    name.take(stem_len(name))
}

/// The extension of a file name with its dot, or nothing.
pub open spec fn dot_extension(name: Seq<char>) -> Seq<char> {
    name.skip(stem_len(name))
}

/// The extension of a file name without its dot, or nothing.
pub open spec fn extension(name: Seq<char>) -> Seq<char> {
    if stem_len(name) < name.len() {
        name.skip(stem_len(name) + 1)
    } else {
        Seq::empty()
    }
}

/// Where the extension of `name` begins.
pub fn stem_end(name: &Vec<char>) -> (n: usize)
    ensures
        n == stem_len(name@),
        n <= name.len(),
{
    let len = name.len();
    let mut k = len;
    proof {
        assert(name@.take(len as int) == name@);
        lemma_stem_len_bounds(name@);
    }
    // Walk back to the last dot; what follows it holds no dot.
    while k > 0 && name[k - 1] != '.'
        invariant
            k <= len,
            len == name.len(),
            forall|j: int| k <= j < len ==> name@[j] != '.',
        decreases k,
    {
        k = k - 1;
    }
    proof {
        lemma_stem_len_of_suffix_without_dot(name@, k as int);
    }
    if k <= 1 {
        len
    } else {
        k - 1
    }
}

proof fn lemma_stem_len_of_suffix_without_dot(name: Seq<char>, k: int)
    requires
        0 <= k <= name.len(),
        forall|j: int| k <= j < name.len() ==> name[j] != '.',
        k > 0 ==> name[k - 1] == '.',
    ensures
        stem_len(name) == (if k <= 1 {
            name.len() as int
        } else {
            k - 1
        }),
    decreases name.len() - k,
{
    if name.len() == 0 {
    } else if k == name.len() {
        assert(name.last() == '.');
    } else {
        let shorter = name.drop_last();
        assert forall|j: int| k <= j < shorter.len() implies shorter[j] != '.' by {
            assert(shorter[j] == name[j]);
        }
        if k > 0 {
            assert(shorter[k - 1] == name[k - 1]);
        }
        lemma_stem_len_of_suffix_without_dot(shorter, k);
    }
}

/// The path of `name` inside `dir`: `dir`, a `/` unless `dir` is empty or
/// already ends with a separator, then `name`.
pub open spec fn joined(dir: Seq<char>, name: Seq<char>) -> Seq<char> {
    if dir.len() == 0 || is_sep(dir.last()) {
        dir + name
    } else {
        dir.push('/') + name
    }
}

/// The path of `name` inside `dir`, as characters.
pub fn join_chars(dir: &Vec<char>, name: &Vec<char>) -> (out: Vec<char>)
    ensures
        out@ == joined(dir@, name@),
{
    let mut out = slice_chars(dir, 0, dir.len());
    assert(dir@.subrange(0, dir@.len() as int) == dir@);
    if dir.len() > 0 && !is_separator(dir[dir.len() - 1]) {
        out.push('/');
    }
    crate::text::push_all(&mut out, name);
    out
}

/// The path of `name` inside `dir`.
pub fn join(dir: &str, name: &str) -> (out: String)
    ensures
        out@ == joined(dir@, name@),
{
    let d = chars_of(dir);
    let n = chars_of(name);
    let v = join_chars(&d, &n);
    string_of(&v)
}

/// The text that every path under `root` starts with: `root` itself where
/// it ends with a separator, else `root` and one separator, a `\` where
/// `root` holds one and a `/` where it does not.
pub open spec fn root_prefix(root: Seq<char>) -> Seq<char> {
    if root.len() > 0 && is_sep(root.last()) {
        root
    } else if root.contains('\\') {
        root.push('\\')
    } else {
        root.push('/')
    }
}

/// `path` lies under `root`.
pub open spec fn is_under_root(path: Seq<char>, root: Seq<char>) -> bool {
    root_prefix(root).is_prefix_of(path)
}

/// The text that every path under `root` starts with.
pub fn root_prefix_chars(root: &Vec<char>) -> (out: Vec<char>)
    ensures
        out@ == root_prefix(root@),
{
    let mut out = slice_chars(root, 0, root.len());
    assert(root@.subrange(0, root@.len() as int) == root@);
    if root.len() > 0 && is_separator(root[root.len() - 1]) {
        return out;
    }
    let mut has_backslash = false;
    let mut i: usize = 0;
    while i < root.len()
        invariant
            i <= root.len(),
            has_backslash == root@.take(i as int).contains('\\'),
        decreases root.len() - i,
    {
        if root[i] == '\\' {
            has_backslash = true;
        }
        proof {
            let a = root@.take(i as int);
            let b = root@.take(i + 1);
            assert(b == a.push(root@[i as int]));
            if a.contains('\\') {
                let k = choose|k: int| 0 <= k < a.len() && a[k] == '\\';
                assert(b[k] == '\\');
            }
            if root@[i as int] == '\\' {
                assert(b[i as int] == '\\');
            }
            if b.contains('\\') && root@[i as int] != '\\' {
                let k = choose|k: int| 0 <= k < b.len() && b[k] == '\\';
                assert(a[k] == '\\');
            }
        }
        i = i + 1;
    }
    assert(root@.take(root@.len() as int) == root@);
    if has_backslash {
        out.push('\\');
    } else {
        out.push('/');
    }
    out
}

/// Whether `path` lies under `root`.
pub fn path_under_root(path: &str, root: &str) -> (r: bool)
    ensures
        r == is_under_root(path@, root@),
{
    let p = chars_of(path);
    let r = chars_of(root);
    let prefix = root_prefix_chars(&r);
    crate::text::starts_with(&p, &prefix)
}

/// `path` is `root` or lies inside it, segment by segment: both are
/// absolute or both are not, both have the same drive prefix or none, and
/// the segments of `root` are the first segments of `path`.
pub open spec fn within_root(path: Seq<char>, root: Seq<char>) -> bool {
    &&& is_absolute(path) == is_absolute(root)
    &&& has_drive_prefix(path) == has_drive_prefix(root)
    &&& segment_texts(root).is_prefix_of(segment_texts(path))
}

/// Whether `path` is `root` or lies inside it.
pub fn path_within_root(path: &str, root: &str) -> (r: bool)
    ensures
        r == within_root(path@, root@),
{
    let p = chars_of(path);
    let q = chars_of(root);
    if is_absolute_path(path) != is_absolute_path(root) {
        return false;
    }
    if drive_prefixed(&p) != drive_prefixed(&q) {
        return false;
    }
    let ps = split_segments(&p);
    let qs = split_segments(&q);
    assert(texts(ps@).len() == ps@.len());
    assert(texts(qs@).len() == qs@.len());
    if qs.len() > ps.len() {
        return false;
    }
    let mut i: usize = 0;
    while i < qs.len()
        invariant
            i <= qs.len() <= ps.len(),
            texts(ps@) == segment_texts(path@),
            texts(qs@) == segment_texts(root@),
            segment_texts(root@).take(i as int) == segment_texts(path@).take(i as int),
        decreases qs.len() - i,
    {
        proof {
            assert(texts(ps@)[i as int] == ps@[i as int]@);
            assert(texts(qs@)[i as int] == qs@[i as int]@);
        }
        if !same_chars(&ps[i], &qs[i]) {
            proof {
                let a = segment_texts(root@);
                let b = segment_texts(path@);
                if a.is_prefix_of(b) {
                    assert(b[i as int] == a[i as int]);
                }
            }
            return false;
        }
        proof {
            let a = segment_texts(root@);
            let b = segment_texts(path@);
            assert(a.take(i + 1) == a.take(i as int).push(a[i as int]));
            assert(b.take(i + 1) == b.take(i as int).push(b[i as int]));
        }
        i = i + 1;
    }
    proof {
        let a = segment_texts(root@);
        let b = segment_texts(path@);
        assert(a.take(a.len() as int) == a);
        assert(a == b.take(a.len() as int));
        assert(a.is_prefix_of(b));
    }
    true
}

} // verus!

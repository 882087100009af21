//! File names: the drawing is always saved with its own extension.

use vstd::prelude::*;

verus! {

/// The position of the last `c` in `s` at or after `from`, if any.
pub open spec fn last_index(s: Seq<u8>, c: u8, from: int) -> int
    decreases s.len() - from,
{
    if from >= s.len() {
        -1
    } else {
        let rest = last_index(s, c, from + 1);
        if rest >= 0 {
            rest
        } else if s[from] == c {
            from
        } else {
            -1
        }
    }
}

/// Where the file name starts: after the last `/`.
pub open spec fn name_start(s: Seq<u8>) -> int {
    last_index(s, 47, 0) + 1
}

/// The position of the dot that starts the extension, or -1: the last dot
/// of the file name, unless that dot opens the name.
pub open spec fn ext_dot(s: Seq<u8>) -> int {
    let d = last_index(s, 46, name_start(s));
    if d > name_start(s) {
        d
    } else {
        -1
    }
}

/// `s` ends in a `.` component: a `.` that follows a separator or stands
/// alone.
pub open spec fn ends_in_current(s: Seq<u8>) -> bool {
    s.len() > 0 && s.last() == 46 && (s.len() == 1 || s[s.len() - 2] == 47)
}

/// The length of `s` without what `Path` does not count as part of its last
/// component: trailing separators and trailing `.` components.
pub open spec fn trimmed_len(s: Seq<u8>) -> int
    decreases s.len(),
{
    if s.len() > 0 && (s.last() == 47 || ends_in_current(s)) {
        trimmed_len(s.drop_last())
    } else {
        s.len() as int
    }
}

/// The trimmed path `t` ends in a file name: its last component is neither
/// empty nor `..`.
pub open spec fn has_name(t: Seq<u8>) -> bool {
    let n = name_start(t);
    n < t.len() && !(t.len() - n == 2 && t[n] == 46 && t[n + 1] == 46)
}

/// The path `s` with the extension `ext`, file names being read as `Path`
/// reads them (trailing separators and `.` components are not part of
/// them): unchanged where it has no file name or already has that
/// extension, else the path up to the end of its file name, with the
/// name's extension (if any) replaced.
pub open spec fn with_extension(s: Seq<u8>, ext: Seq<u8>) -> Seq<u8> {
    let t = s.subrange(0, trimmed_len(s));
    if !has_name(t) {
        s
    } else if ext_dot(t) >= 0 && t.subrange(ext_dot(t) + 1, t.len() as int) == ext {
        s
    } else {
        name_with_extension(t, ext)
    }
}

/// The name `s` (with no trailing separator) with the extension `ext`.
pub open spec fn name_with_extension(s: Seq<u8>, ext: Seq<u8>) -> Seq<u8> {
    let d = ext_dot(s);
    if d >= 0 && s.subrange(d + 1, s.len() as int) == ext {
        s
    } else if d >= 0 {
        s.subrange(0, d + 1) + ext
    } else {
        s.push(46) + ext
    }
}

fn last_index_exec(s: &[u8], c: u8, from: usize) -> (r: i64)
    requires
        from <= s@.len(),
        s@.len() < 0x7fff_ffff_ffff_ffff,
    ensures
        r == last_index(s@, c, from as int),
        -1 <= r < s@.len(),
        r >= 0 ==> r >= from,
{
    let mut i: usize = s.len();
    while i > from
        invariant
            from <= i <= s@.len(),
            s@.len() < 0x7fff_ffff_ffff_ffff,
            forall|j: int| i <= j < s@.len() ==> s@[j] != c,
            last_index(s@, c, i as int) == -1,
        decreases i,
    {
        if s[i - 1] == c {
            proof {
                lemma_last_index_found(s@, c, from as int, (i - 1) as int);
            }
            return (i - 1) as i64;
        }
        i = i - 1;
    }
    -1
}

proof fn lemma_last_index_found(s: Seq<u8>, c: u8, from: int, k: int)
    requires
        0 <= from <= k < s.len(),
        s[k] == c,
        last_index(s, c, k + 1) == -1,
    ensures
        last_index(s, c, from) == k,
    decreases k - from,
{
    if from < k {
        lemma_last_index_found(s, c, from + 1, k);
    }
}

fn copy_prefix(s: &[u8], end: usize) -> (r: Vec<u8>)
    requires
        end <= s@.len(),
    ensures
        r@ == s@.subrange(0, end as int),
{
    let mut r: Vec<u8> = Vec::new();
    let mut k: usize = 0;
    while k < end
        invariant
            end <= s@.len(),
            k <= end,
            r@ == s@.subrange(0, k as int),
        decreases end - k,
    {
        r.push(s[k]);
        k = k + 1;
        assert(r@ =~= s@.subrange(0, k as int));
    }
    r
}

/// The path with the extension `ext`; see `with_extension`.
pub fn ensure_extension(filename: &[u8], ext: &[u8]) -> (r: Vec<u8>)
    requires
        filename@.len() < 0x7fff_ffff_ffff_ffff,
        filename@.len() < usize::MAX,
    ensures
        r@ == with_extension(filename@, ext@),
{
    let end = trimmed_len_exec(filename);
    let name = copy_prefix(filename, end);
    let start = last_index_exec(name.as_slice(), 47, 0) + 1;
    if !has_name_exec(name.as_slice(), start) {
        assert(filename@.subrange(0, filename@.len() as int) =~= filename@);
        return copy_prefix(filename, filename.len());
    }
    let d = last_index_exec(name.as_slice(), 46, start as usize);
    if d > start && name.len() - (d as usize + 1) == ext.len() {
        let d = d as usize;
        let mut same = true;
        let mut i: usize = 0;
        while i < ext.len()
            invariant
                d + 1 + ext@.len() == name@.len(),
                name@.len() < usize::MAX,
                i <= ext@.len(),
                same ==> forall|j: int| 0 <= j < i ==> name@[d + 1 + j] == ext@[j],
                !same ==> name@.subrange(d + 1, name@.len() as int) != ext@,
            decreases ext@.len() - i,
        {
            if name[d + 1 + i] != ext[i] {
                assert(name@.subrange(d + 1, name@.len() as int)[i as int] != ext@[i as int]);
                same = false;
            }
            i = i + 1;
        }
        if same {
            assert(name@.subrange(d + 1, name@.len() as int) =~= ext@);
            return copy_prefix(filename, filename.len());
        }
    }
    replace_extension(name.as_slice(), ext)
}

/// The name with the extension `ext`; see `name_with_extension`.
fn replace_extension(filename: &[u8], ext: &[u8]) -> (r: Vec<u8>)
    requires
        filename@.len() < 0x7fff_ffff_ffff_ffff,
        filename@.len() < usize::MAX,
    ensures
        r@ == name_with_extension(filename@, ext@),
{
    let slash = last_index_exec(filename, 47, 0);
    let start = (slash + 1) as usize;
    let dot = last_index_exec(filename, 46, start);
    let mut r: Vec<u8> = Vec::new();
    if dot > start as i64 {
        let d = dot as usize;
        let mut same = filename.len() - (d + 1) == ext.len();
        if same {
            let mut i: usize = 0;
            while i < ext.len()
                invariant
                    d + 1 + ext@.len() == filename@.len(),
                    filename@.len() < usize::MAX,
                    i <= ext@.len(),
                    same ==> forall|j: int| 0 <= j < i ==> filename@[d + 1 + j] == ext@[j],
                    !same ==> filename@.subrange(d + 1, filename@.len() as int) != ext@,
                decreases ext@.len() - i,
            {
                if filename[d + 1 + i] != ext[i] {
                    assert(filename@.subrange(d + 1, filename@.len() as int)[i as int] != ext@[i as int]);
                    same = false;
                }
                i = i + 1;
            }
        } else {
            assert(filename@.subrange(d + 1, filename@.len() as int).len() != ext@.len());
        }
        if same {
            assert(filename@.subrange(d + 1, filename@.len() as int) =~= ext@);
        }
        let end = if same {
            filename.len()
        } else {
            d + 1
        };
        let mut k: usize = 0;
        while k < end
            invariant
                end <= filename@.len(),
                k <= end,
                r@ == filename@.subrange(0, k as int),
            decreases end - k,
        {
            r.push(filename[k]);
            k = k + 1;
            assert(r@ =~= filename@.subrange(0, k as int));
        }
        if !same {
            let mut j: usize = 0;
            while j < ext.len()
                invariant
                    j <= ext@.len(),
                    d < filename@.len(),
                    r@ == filename@.subrange(0, d + 1) + ext@.subrange(0, j as int),
                decreases ext@.len() - j,
            {
                r.push(ext[j]);
                j = j + 1;
                assert(r@ =~= filename@.subrange(0, d + 1) + ext@.subrange(0, j as int));
            }
            assert(ext@.subrange(0, ext@.len() as int) =~= ext@);
        } else {
            assert(filename@.subrange(0, filename@.len() as int) =~= filename@);
        }
    } else {
        let mut k: usize = 0;
        while k < filename.len()
            invariant
                k <= filename@.len(),
                r@ == filename@.subrange(0, k as int),
            decreases filename@.len() - k,
        {
            r.push(filename[k]);
            k = k + 1;
            assert(r@ =~= filename@.subrange(0, k as int));
        }
        r.push(46);
        let mut j: usize = 0;
        while j < ext.len()
            invariant
                j <= ext@.len(),
                r@ == filename@.push(46) + ext@.subrange(0, j as int),
            decreases ext@.len() - j,
        {
            r.push(ext[j]);
            j = j + 1;
            assert(r@ =~= filename@.push(46) + ext@.subrange(0, j as int));
        }
        assert(filename@.subrange(0, filename@.len() as int) =~= filename@);
        assert(ext@.subrange(0, ext@.len() as int) =~= ext@);
    }
    r
}

/// `r` is the last position of `c` in `s` at or after `from`, or -1 where
/// there is none.
pub open spec fn is_last_index(s: Seq<u8>, c: u8, from: int, r: int) -> bool {
    ||| (r == -1 && forall|j: int| from <= j < s.len() ==> s[j] != c)
    ||| (from <= r < s.len() && s[r] == c && forall|j: int| r < j < s.len() ==> s[j] != c)
}

proof fn lemma_last_index_is(s: Seq<u8>, c: u8, from: int)
    requires
        0 <= from,
    ensures
        is_last_index(s, c, from, last_index(s, c, from)),
    decreases s.len() - from,
{
    if from < s.len() {
        lemma_last_index_is(s, c, from + 1);
    }
}

proof fn lemma_last_index_unique(s: Seq<u8>, c: u8, from: int, r: int)
    requires
        0 <= from,
        is_last_index(s, c, from, r),
    ensures
        last_index(s, c, from) == r,
{
    lemma_last_index_is(s, c, from);
    let q = last_index(s, c, from);
    if q >= 0 && r >= 0 {
        if q < r {
            assert(s[r] != c);
        } else if r < q {
            assert(s[q] != c);
        }
    } else if q >= 0 {
        assert(s[q] != c);
    } else if r >= 0 {
        assert(s[r] != c);
    }
}

/// `ext` can stand as an extension: not empty, with no dot and no separator.
pub open spec fn plain_extension(ext: Seq<u8>) -> bool {
    ext.len() > 0 && forall|j: int| 0 <= j < ext.len() ==> ext[j] != 46 && ext[j] != 47
}

/// Enforcing an extension twice gives what enforcing it once gives.
pub proof fn lemma_with_extension_idempotent(s: Seq<u8>, ext: Seq<u8>)
    requires
        plain_extension(ext),
    ensures
        with_extension(with_extension(s, ext), ext) == with_extension(s, ext),
{
    let t = s.subrange(0, trimmed_len(s));
    lemma_trimmed_len_bounds(s);
    if name_start(t) >= t.len() {
    } else if ext_dot(t) >= 0 && t.subrange(ext_dot(t) + 1, t.len() as int) == ext {
    } else {
        let d = ext_dot(t);
        lemma_last_index_is(t, 46, name_start(t));
        let p = if d >= 0 { t.subrange(0, d + 1) } else { t.push(46) };
        assert(forall|j: int| 0 <= j < p.len() && j < t.len() ==> p[j] == t[j]);
        let r = name_with_extension(t, ext);
        assert(r == p + ext);
        let dot = p.len() - 1;
        assert(p[dot] == 46);
        // The result ends with the extension, so no separator is trimmed.
        assert(r.last() == ext.last());
        assert(r.drop_last().len() < r.len());
        assert(trimmed_len(r) == r.len());
        assert(r.subrange(0, trimmed_len(r)) =~= r);
        // Its last separator is the name's.
        lemma_last_index_is(t, 47, 0);
        let ls = last_index(t, 47, 0);
        assert(ls + 1 == name_start(t));
        assert forall|j: int| ls < j < r.len() implies r[j] != 47 by {
            if j < t.len() && j < p.len() {
                assert(r[j] == p[j]);
                assert(p[j] == t[j]);
            } else if j < p.len() {
                assert(r[j] == 46);
            } else {
                assert(r[j] == ext[j - p.len()]);
            }
        }
        if ls >= 0 {
            assert(r[ls] == t[ls]);
        }
        lemma_last_index_unique(r, 47, 0, ls);
        assert(name_start(r) == name_start(t));
        // Its last dot is the one before the extension.
        assert forall|j: int| dot < j < r.len() implies r[j] != 46 by {
            assert(r[j] == ext[j - p.len()]);
        }
        assert(r[dot] == 46);
        assert(dot > name_start(t));
        lemma_last_index_unique(r, 46, name_start(r), dot);
        assert(ext_dot(r) == dot);
        assert(r.subrange(dot + 1, r.len() as int) =~= ext);
    }
}

proof fn lemma_trimmed_len_bounds(s: Seq<u8>)
    ensures
        0 <= trimmed_len(s) <= s.len(),
    decreases s.len(),
{
    if s.len() > 0 && (s.last() == 47 || ends_in_current(s)) {
        lemma_trimmed_len_bounds(s.drop_last());
    }
}

/// The file name of a path as `Path` reads it: its last component, trailing
/// separators and `.` components left out; empty where it has none.
pub open spec fn file_name_of(s: Seq<u8>) -> Seq<u8> {
    let t = s.subrange(0, trimmed_len(s));
    if has_name(t) {
        t.subrange(name_start(t), t.len() as int)
    } else {
        Seq::empty()
    }
}

/// The folder of a path as `Path` reads it: what precedes its last
/// component, trailing separators and `.` components left out; the root
/// or `.` where only that precedes it, and empty where nothing does.
pub open spec fn parent_of(s: Seq<u8>) -> Seq<u8> {
    let t = s.subrange(0, trimmed_len(s));
    let q = t.subrange(0, name_start(t));
    let k = trimmed_len(q);
    if q.len() == 0 {
        Seq::empty()
    } else if k == 0 && q[0] == 47 {
        seq![47u8]
    } else if k == 0 {
        seq![46u8]
    } else {
        q.subrange(0, k)
    }
}

/// Whether the trimmed path `t`, whose last component starts at `start`,
/// ends in a file name.
fn has_name_exec(t: &[u8], start: i64) -> (r: bool)
    requires
        start == name_start(t@),
        0 <= start <= t@.len(),
    ensures
        r == has_name(t@),
{
    let n = start as usize;
    n < t.len() && !(t.len() - n == 2 && t[n] == 46 && t[n + 1] == 46)
}

fn trimmed_len_exec(s: &[u8]) -> (r: usize)
    ensures
        r == trimmed_len(s@),
        r <= s@.len(),
{
    let mut end: usize = s.len();
    assert(s@.subrange(0, end as int) =~= s@);
    while end > 0 && (s[end - 1] == 47 || (s[end - 1] == 46 && (end == 1 || s[end - 2] == 47)))
        invariant
            end <= s@.len(),
            trimmed_len(s@) == trimmed_len(s@.subrange(0, end as int)),
        decreases end,
    {
        proof {
            let u = s@.subrange(0, end as int);
            assert(u.drop_last() =~= s@.subrange(0, end - 1));
            assert(u.last() == s@[end - 1]);
            if end >= 2 {
                assert(u[u.len() - 2] == s@[end - 2]);
            }
        }
        end = end - 1;
    }
    proof {
        let u = s@.subrange(0, end as int);
        assert(u.len() == end);
        assert(trimmed_len(u) == end);
    }
    end
}

fn copy_range(s: &[u8], from: usize, to: usize) -> (r: Vec<u8>)
    requires
        from <= to <= s@.len(),
    ensures
        r@ == s@.subrange(from as int, to as int),
{
    let mut r: Vec<u8> = Vec::new();
    let mut k: usize = from;
    while k < to
        invariant
            from <= k <= to <= s@.len(),
            r@ == s@.subrange(from as int, k as int),
        decreases to - k,
    {
        r.push(s[k]);
        k = k + 1;
        assert(r@ =~= s@.subrange(from as int, k as int));
    }
    r
}

/// The file name of a path; see `file_name_of`.
pub fn file_name(path: &[u8]) -> (r: Vec<u8>)
    requires
        path@.len() < 0x7fff_ffff_ffff_ffff,
    ensures
        r@ == file_name_of(path@),
{
    let end = trimmed_len_exec(path);
    let t = copy_prefix(path, end);
    let start = last_index_exec(t.as_slice(), 47, 0) + 1;
    if has_name_exec(t.as_slice(), start) {
        copy_range(t.as_slice(), start as usize, end)
    } else {
        let r: Vec<u8> = Vec::new();
        assert(r@ =~= Seq::<u8>::empty());
        r
    }
}

/// The folder of a path; see `parent_of`.
pub fn parent(path: &[u8]) -> (r: Vec<u8>)
    requires
        path@.len() < 0x7fff_ffff_ffff_ffff,
    ensures
        r@ == parent_of(path@),
{
    let end = trimmed_len_exec(path);
    let t = copy_prefix(path, end);
    let start = (last_index_exec(t.as_slice(), 47, 0) + 1) as usize;
    let q = copy_prefix(t.as_slice(), start);
    let k = trimmed_len_exec(q.as_slice());
    if start == 0 {
        let r: Vec<u8> = Vec::new();
        assert(r@ =~= Seq::<u8>::empty());
        r
    } else if k == 0 && q[0] == 47 {
        let r = vec![47u8];
        assert(r@ =~= seq![47u8]);
        r
    } else if k == 0 {
        let r = vec![46u8];
        assert(r@ =~= seq![46u8]);
        r
    } else {
        copy_prefix(q.as_slice(), k)
    }
}

} // verus!

//! File system paths as text, with the Unix meaning that `std::path` gives
//! joining, file names and extensions.
use vstd::prelude::*;
use crate::text::{chars_of, string_from_chars};

verus! {

/// `part` appended to `base`: `part` alone when it is absolute, else joined by
/// one `/` unless `base` is empty or already ends with one.
pub open spec fn path_join(base: Seq<char>, part: Seq<char>) -> Seq<char> {
    if part.len() > 0 && part[0] == '/' {
        part
    } else if base.len() == 0 || base.last() == '/' {
        base + part
    } else {
        base + seq!['/'] + part
    }
}

/// Where the path segment that ends at `e` starts.
pub open spec fn segment_start(p: Seq<char>, e: int) -> int
    decreases e,
{
    if e <= 0 {
        0
    } else if p[e - 1] == '/' {
        e
    } else {
        segment_start(p, e - 1)
    }
}

/// A segment starts at or before its end, and strictly before it when the
/// character before the end is not a separator.
pub proof fn lemma_segment_start(p: Seq<char>, e: int)
    requires
        e <= p.len(),
    ensures
        e > 0 ==> 0 <= segment_start(p, e) <= e,
        e > 0 && p[e - 1] != '/' ==> segment_start(p, e) < e,
    decreases e,
{
    if e > 0 {
        if p[e - 1] != '/' {
            lemma_segment_start(p, e - 1);
            assert(segment_start(p, e) == segment_start(p, e - 1));
        } else {
            assert(segment_start(p, e) == e);
        }
    }
}

/// The start and end of the last normal component of `p.take(e)`: separators
/// and `.` components are passed over, and a final `..` gives none.
pub open spec fn last_normal(p: Seq<char>, e: int) -> Option<(int, int)>
    decreases e,
{
    if e <= 0 || e > p.len() {
        None
    } else if p[e - 1] == '/' {
        last_normal(p, e - 1)
    } else {
        proof {
            lemma_segment_start(p, e);
        }
        let s = segment_start(p, e);
        let seg = p.subrange(s, e);
        if seg == seq!['.', '.'] {
            None
        } else if seg == seq!['.'] {
            if s < e {
                last_normal(p, s)
            } else {
                None
            }
        } else {
            Some((s, e))
        }
    }
}

/// The index of the last `.` in `f`, or -1.
pub open spec fn last_dot(f: Seq<char>) -> int
    decreases f.len(),
{
    if f.len() == 0 {
        -1
    } else if f.last() == '.' {
        f.len() - 1
    } else {
        last_dot(f.drop_last())
    }
}

/// The final component of a path, as `Path::file_name` gives it.
pub open spec fn file_name(p: Seq<char>) -> Option<Seq<char>> {
    match last_normal(p, p.len() as int) {
        Some((s, e)) => Some(p.subrange(s, e)),
        None => None,
    }
}

/// The length of a file name's stem: up to its last `.`, unless that `.` is
/// the first character or there is none.
pub open spec fn stem_len(f: Seq<char>) -> int {
    if last_dot(f) <= 0 {
        f.len() as int
    } else {
        last_dot(f)
    }
}

/// The extension of a path, as `Path::extension` gives it.
pub open spec fn extension(p: Seq<char>) -> Option<Seq<char>> {
    match file_name(p) {
        Some(f) => if last_dot(f) <= 0 {
            None
        } else {
            Some(f.subrange(last_dot(f) + 1, f.len() as int))
        },
        None => None,
    }
}

/// A path with its extension replaced, as `Path::with_extension` gives it:
/// the path cut after its file stem, then `.` and the new extension unless
/// that is empty; the path as it is when it has no file name.
pub open spec fn with_extension(p: Seq<char>, ext: Seq<char>) -> Seq<char> {
    match last_normal(p, p.len() as int) {
        Some((s, e)) => {
            let cut = p.take(s + stem_len(p.subrange(s, e)));
            if ext.len() == 0 {
                cut
            } else {
                cut + seq!['.'] + ext
            }
        },
        None => p,
    }
}

/// `part` appended to `base`.
pub fn join_path(base: &str, part: &str) -> (r: String)
    ensures
        r@ == path_join(base@, part@),
{
    let b = chars_of(base);
    let p = chars_of(part);
    let mut out = b.clone();
    if p.len() > 0 && p[0] == '/' {
        return string_from_chars(p.as_slice());
    }
    if !(b.len() == 0 || b[b.len() - 1] == '/') {
        out.push('/');
    }
    let mut i: usize = 0;
    let ghost start = out@;
    while i < p.len()
        invariant
            i <= p.len(),
            out@ == start + p@.take(i as int),
        decreases p.len() - i,
    {
        out.push(p[i]);
        i = i + 1;
        assert(out@ =~= start + p@.take(i as int));
    }
    assert(p@.take(p.len() as int) =~= p@);
    assert(b@ == base@);
    string_from_chars(out.as_slice())
}

fn find_segment_start(p: &Vec<char>, e: usize) -> (r: usize)
    requires
        e <= p.len(),
    ensures
        r as int == segment_start(p@, e as int),
        r <= e,
{
    let mut j = e;
    while j > 0 && p[j - 1] != '/'
        invariant
            j <= e,
            e <= p.len(),
            segment_start(p@, e as int) == segment_start(p@, j as int),
        decreases j,
    {
        j = j - 1;
    }
    j
}

fn last_normal_component(p: &Vec<char>) -> (r: Option<(usize, usize)>)
    ensures
        match r {
            Some((s, e)) => last_normal(p@, p.len() as int) == Some((s as int, e as int)) && s < e
                <= p.len(),
            None => last_normal(p@, p.len() as int) is None,
        },
{
    let mut e = p.len();
    loop
        invariant
            e <= p.len(),
            last_normal(p@, p.len() as int) == last_normal(p@, e as int),
        decreases e,
    {
        if e == 0 {
            return None;
        }
        if p[e - 1] == '/' {
            e = e - 1;
        } else {
            let s = find_segment_start(p, e);
            proof {
                lemma_segment_start(p@, e as int);
            }
            let len = e - s;
            let is_parent = len == 2 && p[s] == '.' && p[s + 1] == '.';
            let is_current = len == 1 && p[s] == '.';
            proof {
                let seg = p@.subrange(s as int, e as int);
                if is_parent {
                    assert(seg =~= seq!['.', '.']);
                } else {
                    assert(seg != seq!['.', '.']) by {
                        if seg == seq!['.', '.'] {
                            assert(seg.len() == 2 && seg[0] == '.' && seg[1] == '.');
                        }
                    }
                }
                if is_current {
                    assert(seg =~= seq!['.']);
                } else {
                    assert(seg != seq!['.']) by {
                        if seg == seq!['.'] {
                            assert(seg.len() == 1 && seg[0] == '.');
                        }
                    }
                }
            }
            if is_parent {
                return None;
            } else if is_current {
                e = s;
            } else {
                return Some((s, e));
            }
        }
    }
}

fn last_dot_index(f: &Vec<char>) -> (r: Option<usize>)
    ensures
        match r {
            Some(d) => d as int == last_dot(f@) && d < f.len(),
            None => last_dot(f@) == -1,
        },
{
    let mut n = f.len();
    assert(f@.take(n as int) =~= f@);
    while n > 0 && f[n - 1] != '.'
        invariant
            n <= f.len(),
            last_dot(f@) == last_dot(f@.take(n as int)),
        decreases n,
    {
        assert(f@.take(n as int).drop_last() =~= f@.take(n - 1));
        n = n - 1;
    }
    if n == 0 {
        assert(f@.take(0) =~= Seq::<char>::empty());
        None
    } else {
        Some(n - 1)
    }
}

fn chars_between(p: &Vec<char>, s: usize, e: usize) -> (r: Vec<char>)
    requires
        s <= e <= p.len(),
    ensures
        r@ == p@.subrange(s as int, e as int),
{
    let mut out: Vec<char> = Vec::new();
    let mut i = s;
    while i < e
        invariant
            s <= i <= e,
            e <= p.len(),
            out@ == p@.subrange(s as int, i as int),
        decreases e - i,
    {
        out.push(p[i]);
        i = i + 1;
        assert(out@ =~= p@.subrange(s as int, i as int));
    }
    out
}

/// The extension of a path.
pub fn path_extension(path: &str) -> (r: Option<String>)
    ensures
        match r {
            Some(x) => extension(path@) == Some(x@),
            None => extension(path@) is None,
        },
{
    let p = chars_of(path);
    match last_normal_component(&p) {
        Some((s, e)) => {
            let f = chars_between(&p, s, e);
            match last_dot_index(&f) {
                Some(d) => if d == 0 {
                    None
                } else {
                    let x = chars_between(&f, d + 1, f.len());
                    Some(string_from_chars(x.as_slice()))
                },
                None => None,
            }
        },
        None => None,
    }
}

/// A path with its extension replaced.
pub fn path_with_extension(path: &str, ext: &str) -> (r: String)
    ensures
        r@ == with_extension(path@, ext@),
{
    let p = chars_of(path);
    match last_normal_component(&p) {
        Some((s, e)) => {
            let f = chars_between(&p, s, e);
            let stem = match last_dot_index(&f) {
                Some(d) => if d == 0 {
                    f.len()
                } else {
                    d
                },
                None => f.len(),
            };
            let mut out = chars_between(&p, 0, s + stem);
            assert(out@ =~= p@.take(s + stem));
            let x = chars_of(ext);
            if x.len() > 0 {
                out.push('.');
                let mut i: usize = 0;
                let ghost start = out@;
                while i < x.len()
                    invariant
                        i <= x.len(),
                        out@ == start + x@.take(i as int),
                    decreases x.len() - i,
                {
                    out.push(x[i]);
                    i = i + 1;
                    assert(out@ =~= start + x@.take(i as int));
                }
                assert(x@.take(x.len() as int) =~= x@);
            }
            string_from_chars(out.as_slice())
        },
        None => string_from_chars(p.as_slice()),
    }
}

} // verus!

//! Paths with `/` as the separator, read as the standard library reads them
//! on Unix: empty components and `.` components count for nothing, but for a
//! `.` at the very start; a path ends in a file name unless it ends in `..`
//! or has no component at all.

use vstd::prelude::*;

verus! {

/// Where the components of `p` begin: behind a leading `/`, or behind a
/// leading `.` that stands for the current directory.
pub open spec fn body_start(p: Seq<char>) -> int {
    if p.len() > 0 && p[0] == '/' {
        1
    } else if p.len() > 0 && p[0] == '.' && (p.len() == 1 || p[1] == '/') {
        1
    } else {
        0
    }
}

/// The end of `p[b..e]` once the separators and `.` components at its end
/// are dropped.
pub open spec fn trimmed_end(p: Seq<char>, b: int, e: int) -> int
    decreases e - b,
{
    if e <= b {
        b
    } else if p[e - 1] == '/' {
        trimmed_end(p, b, e - 1)
    } else if p[e - 1] == '.' && (e - 1 == b || p[e - 2] == '/') {
        trimmed_end(p, b, e - 1)
    } else {
        e
    }
}

/// Where the component that ends at `e` begins, in `p[b..e]`.
pub open spec fn component_start(p: Seq<char>, b: int, e: int) -> int
    decreases e - b,
{
    if e <= b {
        b
    } else if p[e - 1] == '/' {
        e
    } else {
        component_start(p, b, e - 1)
    }
}

/// The end of the last component of `p`; `body_start(p)` where it has none.
pub open spec fn last_end(p: Seq<char>) -> int {
    trimmed_end(p, body_start(p), p.len() as int)
}

/// The start of the last component of `p`.
pub open spec fn last_start(p: Seq<char>) -> int {
    component_start(p, body_start(p), last_end(p))
}

/// Whether `p` has a last component, and that is not `..`.
pub open spec fn has_file_name(p: Seq<char>) -> bool {
    let s = last_start(p);
    let e = last_end(p);
    e > body_start(p) && !(e - s == 2 && p[s] == '.' && p[s + 1] == '.')
}

/// The file name of `p`: its last component, unless that is `..`.
pub open spec fn file_name(p: Seq<char>) -> Option<Seq<char>> {
    if has_file_name(p) {
        Some(p.subrange(last_start(p), last_end(p)))
    } else {
        None
    }
}

/// The length of the parent of `p`: `p` without its last component and
/// without what separates the two. A path without components has a parent
/// only where it is the current directory.
pub open spec fn parent_len(p: Seq<char>) -> Option<int> {
    let b = body_start(p);
    let s = last_start(p);
    if last_end(p) > b {
        Some(
            trimmed_end(
                p,
                b,
                if s > b {
                    s - 1
                } else {
                    b
                },
            ),
        )
    } else if b == 1 && p[0] == '.' {
        Some(0)
    } else {
        None
    }
}

/// The parent of `p`.
pub open spec fn parent(p: Seq<char>) -> Option<Seq<char>> {
    match parent_len(p) {
        Some(n) => Some(p.take(n)),
        None => None,
    }
}

/// The index of the last `.` in `p[s..e]`; `s - 1` where it holds none.
pub open spec fn last_dot(p: Seq<char>, s: int, e: int) -> int
    decreases e - s,
{
    if e <= s {
        s - 1
    } else if p[e - 1] == '.' {
        e - 1
    } else {
        last_dot(p, s, e - 1)
    }
}

/// Where the extension of `p` begins: behind the last `.` of the file name,
/// unless the name has none or only starts with it.
pub open spec fn extension_start(p: Seq<char>) -> Option<int> {
    let s = last_start(p);
    let d = last_dot(p, s, last_end(p));
    if has_file_name(p) && d > s {
        Some(d + 1)
    } else {
        None
    }
}

/// The extension of `p`.
pub open spec fn extension(p: Seq<char>) -> Option<Seq<char>> {
    match extension_start(p) {
        Some(d) => Some(p.subrange(d, last_end(p))),
        None => None,
    }
}

/// What stands in front of the file name when the file name of `p` is
/// replaced: the parent where `p` has a file name, else `p` itself; with a
/// `/` added unless that is empty or ends in one.
pub open spec fn directory_prefix(p: Seq<char>) -> Seq<char> {
    let base = if has_file_name(p) {
        p.take(parent_len(p).unwrap())
    } else {
        p
    };
    if base.len() > 0 && base.last() != '/' {
        base.push('/')
    } else {
        base
    }
}

/// What stands behind the file name when the extension of `p` is kept: a
/// `.` and the extension, or nothing where `p` has no extension or an empty one.
pub open spec fn extension_suffix(p: Seq<char>) -> Seq<char> {
    match extension(p) {
        Some(x) => if x.len() > 0 {
            seq!['.'] + x
        } else {
            Seq::empty()
        },
        None => Seq::empty(),
    }
}

/// `body_start` of `p`.
pub fn body_start_of(p: &Vec<char>) -> (b: usize)
    ensures
        b == body_start(p@),
        b <= p@.len(),
{
    if p.len() > 0 && p[0] == '/' {
        1
    } else if p.len() > 0 && p[0] == '.' && (p.len() == 1 || p[1] == '/') {
        1
    } else {
        0
    }
}

/// `trimmed_end` of `p[b..e]`.
pub fn trimmed_end_of(p: &Vec<char>, b: usize, e: usize) -> (r: usize)
    requires
        b <= e <= p@.len(),
    ensures
        r == trimmed_end(p@, b as int, e as int),
        b <= r <= e,
{
    let mut r = e;
    while r > b && (p[r - 1] == '/' || (p[r - 1] == '.' && (r - 1 == b || p[r - 2] == '/')))
        invariant
            b <= r <= e <= p@.len(),
            trimmed_end(p@, b as int, e as int) == trimmed_end(p@, b as int, r as int),
        decreases r - b,
    {
        r -= 1;
    }
    r
}

/// `component_start` of `p[b..e]`.
pub fn component_start_of(p: &Vec<char>, b: usize, e: usize) -> (r: usize)
    requires
        b <= e <= p@.len(),
    ensures
        r == component_start(p@, b as int, e as int),
        b <= r <= e,
{
    let mut r = e;
    while r > b && p[r - 1] != '/'
        invariant
            b <= r <= e <= p@.len(),
            component_start(p@, b as int, e as int) == component_start(p@, b as int, r as int),
        decreases r - b,
    {
        r -= 1;
    }
    r
}

/// The bounds of the file name of `p`.
pub fn file_name_of(p: &Vec<char>) -> (r: Option<(usize, usize)>)
    ensures
        r is Some == has_file_name(p@),
        r matches Some((s, e)) ==> s == last_start(p@) && e == last_end(p@) && s <= e <= p@.len(),
{
    let b = body_start_of(p);
    let e = trimmed_end_of(p, b, p.len());
    let s = component_start_of(p, b, e);
    if e > b && !(e - s == 2 && p[s] == '.' && p[s + 1] == '.') {
        Some((s, e))
    } else {
        None
    }
}

/// The length of the parent of `p`.
pub fn parent_len_of(p: &Vec<char>) -> (r: Option<usize>)
    ensures
        r is Some == parent_len(p@) is Some,
        r matches Some(n) ==> n == parent_len(p@).unwrap() && n <= p@.len(),
{
    let b = body_start_of(p);
    let e = trimmed_end_of(p, b, p.len());
    let s = component_start_of(p, b, e);
    if e > b {
        let cut = if s > b {
            s - 1
        } else {
            b
        };
        Some(trimmed_end_of(p, b, cut))
    } else if b == 1 && p[0] == '.' {
        Some(0)
    } else {
        None
    }
}

/// The bounds of the extension of `p`.
pub fn extension_of(p: &Vec<char>) -> (r: Option<(usize, usize)>)
    ensures
        r is Some == extension_start(p@) is Some,
        r matches Some((d, e)) ==> d == extension_start(p@).unwrap() && e == last_end(p@) && d <= e
            <= p@.len(),
{
    match file_name_of(p) {
        Some((s, e)) => {
            let mut d = e;
            while d > s && p[d - 1] != '.'
                invariant
                    s <= d <= e <= p@.len(),
                    last_dot(p@, s as int, e as int) == last_dot(p@, s as int, d as int),
                decreases d - s,
            {
                d -= 1;
            }
            if d > s && d - 1 > s {
                Some((d, e))
            } else {
                None
            }
        },
        None => None,
    }
}

} // verus!

//! Index arithmetic shared by the list and sorted-set values: negative
//! positions count from the end, and range bounds are clamped to the length.
use vstd::prelude::*;

verus! {

pub open spec fn clamp(x: int, len: int) -> int {
    if x < 0 {
        0
    } else if x > len {
        len
    } else {
        x
    }
}

/// A position as given, with a negative one counted from the end.
pub open spec fn from_end(len: int, i: int) -> int {
    if i < 0 {
        len + i
    } else {
        i
    }
}

/// Elements `start` through `stop`, both included; `-1` is the last one.
pub open spec fn inclusive_range<T>(s: Seq<T>, start: int, stop: int) -> Seq<T> {
    let a = clamp(from_end(s.len() as int, start), s.len() as int);
    let b = clamp(from_end(s.len() as int, stop) + 1, s.len() as int);
    if a < b {
        s.subrange(a, b)
    } else {
        Seq::empty()
    }
}

/// The element at a position that may count from the end, if there is one.
pub open spec fn element_at<T>(s: Seq<T>, i: int) -> Option<T> {
    let j = from_end(s.len() as int, i);
    if 0 <= j < s.len() {
        Some(s[j])
    } else {
        None
    }
}

/// Clamped bounds `(a, b)` of an inclusive range over `len` elements.
pub fn inclusive_bounds(len: usize, start: isize, stop: isize) -> (r: (usize, usize))
    ensures
        r.0 as int == clamp(from_end(len as int, start as int), len as int),
        r.1 as int == clamp(from_end(len as int, stop as int) + 1, len as int),
{
    let n = len as i128;
    let a0: i128 = if start < 0 { n + start as i128 } else { start as i128 };
    let b0: i128 = if stop < 0 { n + stop as i128 + 1 } else { stop as i128 + 1 };
    let a: i128 = if a0 < 0 { 0 } else if a0 > n { n } else { a0 };
    let b: i128 = if b0 < 0 { 0 } else if b0 > n { n } else { b0 };
    (a as usize, b as usize)
}

/// The position `i` stands for among `len` elements, if it is in bounds.
pub fn resolve_index(len: usize, i: isize) -> (r: Option<usize>)
    ensures
        match r {
            Some(j) => j as int == from_end(len as int, i as int) && j < len,
            None => !(0 <= from_end(len as int, i as int) < len),
        },
{
    let n = len as i128;
    let j: i128 = if i < 0 { n + i as i128 } else { i as i128 };
    if 0 <= j && j < n {
        Some(j as usize)
    } else {
        None
    }
}

/// Copies of `v[a..b]`.
pub fn copy_slice(v: &Vec<String>, a: usize, b: usize) -> (r: Vec<String>)
    requires
        a <= b <= v@.len(),
    ensures
        r@.map_values(|s: String| s@) == v@.map_values(|s: String| s@).subrange(a as int, b as int),
{
    let mut r: Vec<String> = Vec::new();
    let mut i: usize = a;
    while i < b
        invariant
            a <= i <= b <= v@.len(),
            r@.len() == i - a,
            forall|j: int| 0 <= j < i - a ==> (#[trigger] r@[j])@ == v@[j + a]@,
        decreases b - i,
    {
        r.push(v[i].clone());
        i = i + 1;
    }
    assert(r@.map_values(|s: String| s@) =~= v@.map_values(|s: String| s@).subrange(a as int, b as int));
    r
}

} // verus!

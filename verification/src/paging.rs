//! Copies, pages and tails of stored lists.

use vstd::prelude::*;

verus! {

/// A value that can be copied exactly.
pub trait Duplicate: Sized {
    fn duplicate(&self) -> (copy: Self)
        ensures
            copy == *self,
    ;
}

impl Duplicate for u64 {
    fn duplicate(&self) -> (copy: Self) {
        *self
    }
}

impl Duplicate for String {
    fn duplicate(&self) -> (copy: Self) {
        self.clone()
    }
}

/// The page of `s` that starts at `offset` and holds at most `limit` items.
pub open spec fn page_spec<T>(s: Seq<T>, offset: int, limit: int) -> Seq<T> {
    if offset >= s.len() || limit == 0 {
        Seq::empty()
    } else if offset + limit < s.len() {
        s.subrange(offset, offset + limit)
    } else {
        s.subrange(offset, s.len() as int)
    }
}

/// Whether a page request on a list of `len` items stays within `u32` arithmetic.
pub open spec fn page_fits(len: int, offset: u32, limit: u32) -> bool {
    offset >= len || limit == 0 || offset + limit <= u32::MAX
}

/// The last `n` items of `s`, or all of them where `s` is shorter.
pub open spec fn tail_spec<T>(s: Seq<T>, n: int) -> Seq<T> {
    if n >= s.len() {
        s
    } else {
        s.subrange(s.len() - n, s.len() as int)
    }
}

/// Copies the items of `v` from `start` up to `end`.
pub fn copy_range<T: Duplicate>(v: &Vec<T>, start: usize, end: usize) -> (r: Vec<T>)
    requires
        start <= end <= v@.len(),
    ensures
        r@ == v@.subrange(start as int, end as int),
{
    let mut r: Vec<T> = Vec::new();
    let mut i = start;
    while i < end
        invariant
            start <= i <= end <= v@.len(),
            r@ == v@.subrange(start as int, i as int),
        decreases end - i,
    {
        let item = v[i].duplicate();
        r.push(item);
        i = i + 1;
        assert(r@ =~= v@.subrange(start as int, i as int));
    }
    r
}

/// Copies all the items of `v`.
pub fn copy_all<T: Duplicate>(v: &Vec<T>) -> (r: Vec<T>)
    ensures
        r@ == v@,
{
    let r = copy_range(v, 0, v.len());
    assert(v@.subrange(0, v@.len() as int) =~= v@);
    r
}

/// The page of `v` that starts at `offset` and holds at most `limit` items.
pub fn page<T: Duplicate>(v: &Vec<T>, offset: u32, limit: u32) -> (r: Vec<T>)
    requires
        page_fits(v@.len() as int, offset, limit),
    ensures
        r@ == page_spec(v@, offset as int, limit as int),
{
    let len = v.len();
    if offset as usize >= len || limit == 0 {
        return Vec::new();
    }
    let end_wide: u64 = offset as u64 + limit as u64;
    let end: usize = if end_wide < len as u64 {
        end_wide as usize
    } else {
        len
    };
    copy_range(v, offset as usize, end)
}

/// The last `n` items of `v`.
pub fn tail<T: Duplicate>(v: &Vec<T>, n: u64) -> (r: Vec<T>)
    ensures
        r@ == tail_spec(v@, n as int),
{
    let len = v.len();
    if n as u128 >= len as u128 {
        copy_all(v)
    } else {
        copy_range(v, len - n as usize, len)
    }
}

/// The items of `s` other than `x`, in order.
pub open spec fn without<T>(s: Seq<T>, x: T) -> Seq<T> {
    s.filter(|y: T| y != x)
}

/// Copies `v` leaving out every occurrence of `x`.
pub fn copy_without(v: &Vec<u64>, x: u64) -> (r: Vec<u64>)
    ensures
        r@ == without(v@, x),
{
    let mut r: Vec<u64> = Vec::new();
    let mut i: usize = 0;
    while i < v.len()
        invariant
            i <= v@.len(),
            r@ == without(v@.take(i as int), x),
        decreases v@.len() - i,
    {
        proof {
            reveal_with_fuel(Seq::<_>::filter, 1);
            assert(v@.take(i + 1).drop_last() =~= v@.take(i as int));
        }
        if v[i] != x {
            r.push(v[i]);
        }
        i = i + 1;
    }
    assert(v@.take(v@.len() as int) =~= v@);
    r
}

} // verus!

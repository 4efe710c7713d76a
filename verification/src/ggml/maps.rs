//! Which pages of a weight tensor may be dropped once a card keeps its rows:
//! whole pages, and only of a mapping of a file. A dropped page of a file
//! comes back from the file when touched, while ordinary memory would be
//! pushed out to swap.
use crate::text;
use vstd::prelude::*;

verus! {

/// The size of a page.
pub const PAGE: usize = 4096;

/// The pages wholly inside `addr..addr + len`, as an address range; none
/// where there is no whole page. The pages at either end may hold the host's
/// rows too and are kept.
pub fn whole_pages(addr: usize, len: usize) -> (r: Option<(usize, usize)>)
    requires
        addr + len + PAGE <= usize::MAX,
    ensures
        match r {
            Some((from, to)) => {
                &&& from % PAGE == 0
                &&& to % PAGE == 0
                &&& addr <= from < to <= addr + len
                &&& from < addr + PAGE
                &&& addr + len < to + PAGE
            },
            None => forall|p: int| #![trigger page_inside(p, addr as int, len as int)]
                !page_inside(p, addr as int, len as int),
        },
{
    let from: usize = (addr + (PAGE - 1)) / PAGE * PAGE;
    let to: usize = (addr + len) / PAGE * PAGE;
    if to <= from {
        proof {
            assert forall|p: int| #![trigger page_inside(p, addr as int, len as int)]
                !page_inside(p, addr as int, len as int) by {
                if page_inside(p, addr as int, len as int) {
                    assert(p * PAGE >= from);
                    assert((p + 1) * PAGE <= to);
                }
            }
        }
        None
    } else {
        Some((from, to))
    }
}

/// Whether page number `p` lies wholly inside `addr..addr + len`.
pub open spec fn page_inside(p: int, addr: int, len: int) -> bool {
    addr <= p * PAGE && (p + 1) * PAGE <= addr + len
}

/// The pages dropped are exactly those wholly inside the range.
pub proof fn law_whole_pages(addr: int, len: int, from: int, to: int, p: int)
    requires
        from % PAGE as int == 0,
        to % PAGE as int == 0,
        addr <= from < to <= addr + len,
        from < addr + PAGE,
        addr + len < to + PAGE,
    ensures
        page_inside(p, addr, len) <==> from <= p * PAGE < to,
{
}

/// Whether `addr..addr + len` lies in one of the mappings.
pub open spec fn covered(maps: Seq<(usize, usize)>, addr: int, len: int) -> bool {
    exists|i: int| #![trigger maps[i]]
        0 <= i < maps.len() && maps[i].0 <= addr && addr + len <= maps[i].1
}

/// Whether `addr..addr + len` lies in one of the mappings.
pub fn file_backed(maps: &Vec<(usize, usize)>, addr: usize, len: usize) -> (r: bool)
    requires
        addr + len <= usize::MAX,
    ensures
        r == covered(maps@, addr as int, len as int),
{
    for i in 0..maps.len()
        invariant
            addr + len <= usize::MAX,
            forall|k: int| 0 <= k < i ==> !((#[trigger] maps@[k]).0 <= addr && addr + len
                <= maps@[k].1),
    {
        if maps[i].0 <= addr && addr + len <= maps[i].1 {
            assert(maps@[i as int].0 <= addr);
            return true;
        }
    }
    false
}

/// White space between the fields of a line.
#[verifier::allow_in_spec]
pub fn is_space(b: u8) -> bool
    returns
        (b == 32 || (9 <= b && b <= 13)),
{
    b == 32 || (9 <= b && b <= 13)
}

/// The first place from `i` on, before `end`, that is (or is not) white space.
pub open spec fn find(t: Seq<u8>, i: int, end: int, space: bool) -> int
    decreases end - i,
{
    if i >= end || is_space(t[i]) == space {
        i
    } else {
        find(t, i + 1, end, space)
    }
}

/// The fields of `t[i..end]`, as ranges.
pub open spec fn fields(t: Seq<u8>, i: int, end: int) -> Seq<(int, int)>
    decreases end - i,
{
    let s = find(t, i, end, false);
    if s >= end || s < i {
        seq![]
    } else {
        let e = find(t, s, end, true);
        if e <= s || e > end {
            seq![]
        } else {
            seq![(s, e)] + fields(t, e, end)
        }
    }
}

/// The characters of `t[a..b]`.
pub open spec fn codes_between(t: Seq<u8>, a: int, b: int) -> Seq<u32> {
    Seq::new((b - a) as nat, |i: int| t[a + i] as u32)
}

/// The first hyphen of `t[i..end]`, or `end`.
pub open spec fn hyphen(t: Seq<u8>, i: int, end: int) -> int
    decreases end - i,
{
    if i >= end || t[i] == 45 {
        i
    } else {
        hyphen(t, i + 1, end)
    }
}

/// The address range that `t[a..b]` writes: two hexadecimal numbers around a
/// hyphen.
pub open spec fn range_of(t: Seq<u8>, a: int, b: int) -> Option<(usize, usize)> {
    let h = hyphen(t, a, b);
    if h >= b {
        None
    } else {
        match (
            text::number(codes_between(t, a, h), 16),
            text::number(codes_between(t, h + 1, b), 16),
        ) {
            (Some(x), Some(y)) => Some((x as usize, y as usize)),
            _ => None,
        }
    }
}

/// The mapping that the line `t[i..end]` of the kernel's list names, where it
/// is one of a file: "start-end perms offset dev inode path", with an inode
/// that is not 0 and an absolute path.
pub open spec fn line_map(t: Seq<u8>, i: int, end: int) -> Option<(usize, usize)> {
    let f = fields(t, i, end);
    if f.len() < 6 {
        None
    } else if f[4].1 - f[4].0 == 1 && t[f[4].0] == 48 {
        None
    } else if t[f[5].0] != 47 {
        None
    } else {
        range_of(t, f[0].0, f[0].1)
    }
}

/// The end of the line that begins at `i`.
pub open spec fn line_end(t: Seq<u8>, i: int) -> int
    decreases t.len() - i,
{
    if i >= t.len() || t[i] == 10 {
        i
    } else {
        line_end(t, i + 1)
    }
}

/// The mappings of files that the kernel's list names, from line start `i`.
pub open spec fn maps_from(t: Seq<u8>, i: int) -> Seq<(usize, usize)>
    decreases t.len() - i,
{
    if i >= t.len() {
        seq![]
    } else {
        let e = line_end(t, i);
        let rest = if i <= e < t.len() {
            maps_from(t, e + 1)
        } else {
            seq![]
        };
        match line_map(t, i, e) {
            Some(m) => seq![m] + rest,
            None => rest,
        }
    }
}

proof fn lemma_find(t: Seq<u8>, i: int, end: int, space: bool)
    requires
        0 <= i <= end <= t.len(),
    ensures
        i <= find(t, i, end, space) <= end,
        find(t, i, end, space) < end ==> is_space(t[find(t, i, end, space)]) == space,
        find(t, i, end, space) == i ==> i >= end || is_space(t[i]) == space,
    decreases end - i,
{
    if i < end && is_space(t[i]) != space {
        lemma_find(t, i + 1, end, space);
    }
}

fn find_at(t: &[u8], i: usize, end: usize, space: bool) -> (r: usize)
    requires
        i <= end <= t@.len(),
    ensures
        r == find(t@, i as int, end as int, space),
        i <= r <= end,
{
    let mut j: usize = i;
    while j < end && is_space(t[j]) != space
        invariant
            i <= j <= end <= t@.len(),
            find(t@, i as int, end as int, space) == find(t@, j as int, end as int, space),
        decreases end - j,
    {
        j = j + 1;
    }
    j
}

fn fields_of(t: &[u8], i: usize, end: usize) -> (v: Vec<(usize, usize)>)
    requires
        i <= end <= t@.len(),
    ensures
        v@.len() == fields(t@, i as int, end as int).len(),
        forall|k: int| 0 <= k < v@.len() ==> {
            let f = fields(t@, i as int, end as int)[k];
            (#[trigger] v@[k]).0 == f.0 && v@[k].1 == f.1 && v@[k].0 < v@[k].1 <= end
        },
{
    let ghost all = fields(t@, i as int, end as int);
    let mut v: Vec<(usize, usize)> = Vec::new();
    let mut j: usize = i;
    loop
        invariant
            i <= j <= end <= t@.len(),
            all == fields(t@, i as int, end as int),
            v@.len() <= all.len(),
            fields(t@, j as int, end as int) == all.skip(v@.len() as int),
            forall|k: int| 0 <= k < v@.len() ==> (#[trigger] v@[k]).0 == all[k].0 && v@[k].1
                == all[k].1 && v@[k].0 < v@[k].1 <= end,
        ensures
            v@.len() == all.len(),
            forall|k: int| 0 <= k < v@.len() ==> (#[trigger] v@[k]).0 == all[k].0 && v@[k].1
                == all[k].1 && v@[k].0 < v@[k].1 <= end,
        decreases end - j,
    {
        let s: usize = find_at(t, j, end, false);
        if s >= end {
            assert(all.skip(v@.len() as int).len() == 0);
            break;
        }
        let e: usize = find_at(t, s, end, true);
        proof {
            lemma_find(t@, j as int, end as int, false);
            lemma_find(t@, s as int, end as int, true);
            let rest = fields(t@, j as int, end as int);
            assert(rest == seq![(s as int, e as int)] + fields(t@, e as int, end as int));
            assert(rest[0] == all[v@.len() as int]);
            assert(all.skip(v@.len() as int + 1) =~= rest.skip(1));
            assert(rest.skip(1) =~= fields(t@, e as int, end as int));
        }
        v.push((s, e));
        j = e;
    }
    v
}

fn number_between(t: &[u8], a: usize, b: usize) -> (r: Option<usize>)
    requires
        a <= b <= t@.len(),
    ensures
        match r {
            Some(n) => text::number(codes_between(t@, a as int, b as int), 16) == Some(n as int),
            None => text::number(codes_between(t@, a as int, b as int), 16) is None,
        },
{
    let mut c: Vec<u32> = Vec::new();
    let mut i: usize = a;
    while i < b
        invariant
            a <= i <= b <= t@.len(),
            c@ =~= codes_between(t@, a as int, b as int).take(i - a),
        decreases b - i,
    {
        c.push(t[i] as u32);
        i = i + 1;
    }
    assert(c@ =~= codes_between(t@, a as int, b as int));
    text::parse_number(&c, 16)
}

fn parse_range(t: &[u8], a: usize, b: usize) -> (r: Option<(usize, usize)>)
    requires
        a <= b <= t@.len(),
    ensures
        r == range_of(t@, a as int, b as int),
{
    let mut h: usize = a;
    while h < b && t[h] != 45
        invariant
            a <= h <= b <= t@.len(),
            hyphen(t@, a as int, b as int) == hyphen(t@, h as int, b as int),
        decreases b - h,
    {
        h = h + 1;
    }
    if h >= b {
        return None;
    }
    match (number_between(t, a, h), number_between(t, h + 1, b)) {
        (Some(x), Some(y)) => Some((x, y)),
        _ => None,
    }
}

fn parse_line(t: &[u8], i: usize, end: usize) -> (r: Option<(usize, usize)>)
    requires
        i <= end <= t@.len(),
    ensures
        r == line_map(t@, i as int, end as int),
{
    let f = fields_of(t, i, end);
    let ghost all = fields(t@, i as int, end as int);
    if f.len() < 6 {
        return None;
    }
    assert(f@[0].0 == all[0].0 && f@[4].0 == all[4].0 && f@[5].0 == all[5].0);
    let inode = f[4];
    let path = f[5];
    if inode.1 - inode.0 == 1 && t[inode.0] == 48 {
        return None;
    }
    if t[path.0] != 47 {
        return None;
    }
    let range = f[0];
    parse_range(t, range.0, range.1)
}

/// The mappings of files that the kernel's list of mappings names.
pub fn file_maps(t: &[u8]) -> (v: Vec<(usize, usize)>)
    ensures
        v@ == maps_from(t@, 0),
{
    let mut v: Vec<(usize, usize)> = Vec::new();
    let mut i: usize = 0;
    let n: usize = t.len();
    while i < n
        invariant
            i <= n,
            n == t@.len(),
            maps_from(t@, 0) =~= v@ + maps_from(t@, i as int),
        decreases n - i,
    {
        let mut e: usize = i;
        while e < n && t[e] != 10
            invariant
                i <= e <= n,
                n == t@.len(),
                line_end(t@, i as int) == line_end(t@, e as int),
            decreases n - e,
        {
            e = e + 1;
        }
        let ghost before = v@;
        match parse_line(t, i, e) {
            Some(m) => {
                v.push(m);
                assert(before + (seq![m] + maps_from(t@, e + 1)) =~= v@ + maps_from(t@, e + 1));
            },
            None => {},
        }
        if e < n {
            i = e + 1;
        } else {
            assert(maps_from(t@, e + 1) =~= maps_from(t@, e as int));
            i = e;
        }
    }
    v
}

} // verus!

use vstd::prelude::*;
use crate::chars::{chars_of, vec_eq};
use crate::text::push_char;

verus! {

/// The pieces of `cs` between `/` separators, `cur` being the piece read so far.
pub open spec fn pieces_from(cs: Seq<char>, cur: Seq<char>) -> Seq<Seq<char>>
    decreases cs.len(),
{
    if cs.len() == 0 {
        seq![cur]
    } else if cs[0] == '/' {
        seq![cur] + pieces_from(cs.drop_first(), seq![])
    } else {
        pieces_from(cs.drop_first(), cur.push(cs[0]))
    }
}

/// `cs` split at every `/` (empty pieces included).
pub open spec fn split_path(cs: Seq<char>) -> Seq<Seq<char>> {
    pieces_from(cs, seq![])
}

/// The non-empty pieces of `ps`, in order.
pub open spec fn non_empty(ps: Seq<Seq<char>>) -> Seq<Seq<char>>
    decreases ps.len(),
{
    if ps.len() == 0 {
        seq![]
    } else if ps.last().len() == 0 {
        non_empty(ps.drop_last())
    } else {
        non_empty(ps.drop_last()).push(ps.last())
    }
}

/// The pieces joined with `/`.
pub open spec fn join_path(ps: Seq<Seq<char>>) -> Seq<char>
    decreases ps.len(),
{
    if ps.len() == 0 {
        seq![]
    } else if ps.len() == 1 {
        ps[0]
    } else {
        join_path(ps.drop_last()) + seq!['/'] + ps.last()
    }
}

/// How many leading pieces `a` and `b` share.
pub open spec fn common_len(a: Seq<Seq<char>>, b: Seq<Seq<char>>, i: int) -> int
    decreases a.len() - i,
{
    if i < 0 || i >= a.len() || i >= b.len() || a[i] != b[i] {
        i
    } else {
        common_len(a, b, i + 1)
    }
}

/// `n` copies of `../`.
pub open spec fn ups(n: int) -> Seq<char>
    decreases n,
{
    if n <= 0 {
        seq![]
    } else {
        ups(n - 1) + seq!['.', '.', '/']
    }
}

/// The path a part in directory `dir` writes to reach `uri`: the shared leading directories
/// are dropped and each remaining directory of `dir` becomes a `../`.
pub open spec fn spec_relative_target(dir: Seq<char>, uri: Seq<char>) -> Seq<char> {
    let from = non_empty(split_path(dir));
    let to = split_path(uri);
    let common = common_len(from, to, 0);
    ups(from.len() - common) + join_path(to.subrange(common, to.len() as int))
}

/// Splits `cs` at every `/`.
fn split(cs: &Vec<char>) -> (r: Vec<Vec<char>>)
    ensures
        r@.len() == split_path(cs@).len(),
        forall|i: int| 0 <= i < r@.len() ==> (#[trigger] r@[i])@ == split_path(cs@)[i],
{
    let mut out: Vec<Vec<char>> = Vec::new();
    let mut cur: Vec<char> = Vec::new();
    let ghost mut g: Seq<Seq<char>> = seq![];
    let mut i: usize = 0;
    proof {
        assert(cs@.skip(0) =~= cs@);
    }
    while i < cs.len()
        invariant
            i <= cs@.len(),
            out@.len() == g.len(),
            forall|j: int| 0 <= j < g.len() ==> (#[trigger] out@[j])@ == g[j],
            g + pieces_from(cs@.skip(i as int), cur@) == split_path(cs@),
        decreases cs@.len() - i,
    {
        let ghost rest = cs@.skip(i as int);
        proof {
            assert(rest.drop_first() =~= cs@.skip(i + 1));
            assert(rest[0] == cs@[i as int]);
        }
        if cs[i] == '/' {
            let piece = cur;
            cur = Vec::new();
            proof {
                assert(g.push(piece@) + pieces_from(cs@.skip(i + 1), seq![]) =~= g + pieces_from(rest, piece@));
                g = g.push(piece@);
            }
            out.push(piece);
        } else {
            cur.push(cs[i]);
        }
        i = i + 1;
    }
    proof {
        assert(cs@.skip(i as int) =~= Seq::<char>::empty());
        assert(g.push(cur@) =~= split_path(cs@));
        g = g.push(cur@);
    }
    out.push(cur);
    out
}

/// The path a part in directory `dir` writes as a relationship target to reach `uri`.
pub fn relative_target(dir: &str, uri: &str) -> (r: String)
    ensures
        r@ == spec_relative_target(dir@, uri@),
{
    let dcs = chars_of(dir);
    let ucs = chars_of(uri);
    let all_from = split(&dcs);
    let to = split(&ucs);
    let ghost fs = split_path(dir@);
    let ghost ts = split_path(uri@);
    // the non-empty pieces of the directory
    let mut from: Vec<Vec<char>> = Vec::new();
    for i in 0..all_from.len()
        invariant
            all_from@.len() == fs.len(),
            forall|j: int| 0 <= j < all_from@.len() ==> (#[trigger] all_from@[j])@ == fs[j],
            from@.len() == non_empty(fs.take(i as int)).len(),
            forall|j: int| 0 <= j < from@.len() ==> (#[trigger] from@[j])@ == non_empty(fs.take(i as int))[j],
    {
        proof {
            assert(fs.take(i + 1).drop_last() =~= fs.take(i as int));
            assert(fs.take(i + 1).last() == fs[i as int]);
        }
        if all_from[i].len() > 0 {
            from.push(copy_chars(&all_from[i]));
        }
    }
    proof {
        assert(fs.take(fs.len() as int) =~= fs);
    }
    let ghost fr = non_empty(fs);
    let mut common: usize = 0;
    while common < from.len() && common < to.len() && vec_eq_at(&from, &to, common)
        invariant
            from@.len() == fr.len(),
            forall|j: int| 0 <= j < from@.len() ==> (#[trigger] from@[j])@ == fr[j],
            to@.len() == ts.len(),
            forall|j: int| 0 <= j < to@.len() ==> (#[trigger] to@[j])@ == ts[j],
            common <= from@.len(),
            common <= to@.len(),
            common_len(fr, ts, 0) == common_len(fr, ts, common as int),
        decreases from@.len() - common,
    {
        common = common + 1;
    }
    assert(common_len(fr, ts, common as int) == common as int);
    let mut out = String::new();
    let mut u = common;
    while u < from.len()
        invariant
            common <= u <= from@.len(),
            out@ == ups(u - common),
        decreases from@.len() - u,
    {
        push_char(&mut out, '.');
        push_char(&mut out, '.');
        push_char(&mut out, '/');
        proof {
            assert(ups(u + 1 - common) == ups(u - common) + seq!['.', '.', '/']);
            assert(out@ =~= ups(u - common) + seq!['.', '.', '/']);
        }
        u = u + 1;
    }
    let ghost base = out@;
    let ghost tail = ts.subrange(common as int, ts.len() as int);
    let mut j = common;
    proof {
        assert(tail.take(0) =~= Seq::<Seq<char>>::empty());
        assert(out@ =~= base + join_path(tail.take(0)));
    }
    while j < to.len()
        invariant
            common <= j <= to@.len(),
            to@.len() == ts.len(),
            forall|x: int| 0 <= x < to@.len() ==> (#[trigger] to@[x])@ == ts[x],
            tail == ts.subrange(common as int, ts.len() as int),
            out@ == base + join_path(tail.take(j - common)),
        decreases to@.len() - j,
    {
        let ghost t = tail.take(j + 1 - common);
        proof {
            assert(t.drop_last() =~= tail.take(j - common));
            assert(t.last() == ts[j as int]);
        }
        if j > common {
            push_char(&mut out, '/');
        }
        let piece = &to[j];
        let ghost before = out@;
        for x in 0..piece.len()
            invariant
                out@ == before + piece@.take(x as int),
        {
            push_char(&mut out, piece[x]);
            assert(piece@.take(x + 1) =~= piece@.take(x as int).push(piece@[x as int]));
            assert(out@ =~= before + piece@.take(x + 1));
        }
        proof {
            assert(piece@.take(piece@.len() as int) =~= piece@);
            if j > common {
                assert(out@ =~= base + (join_path(t.drop_last()) + seq!['/'] + t.last()));
            } else {
                assert(t.len() == 1);
                assert(join_path(tail.take(0)) =~= Seq::<char>::empty());
                assert(out@ =~= base + t[0]);
            }
        }
        j = j + 1;
    }
    proof {
        assert(tail.take(ts.len() - common) =~= tail);
    }
    out
}

fn copy_chars(v: &Vec<char>) -> (r: Vec<char>)
    ensures
        r@ == v@,
{
    let mut r: Vec<char> = Vec::new();
    for i in 0..v.len()
        invariant
            r@ == v@.take(i as int),
    {
        r.push(v[i]);
        assert(v@.take(i + 1) =~= v@.take(i as int).push(v@[i as int]));
    }
    assert(v@.take(v@.len() as int) =~= v@);
    r
}

fn vec_eq_at(a: &Vec<Vec<char>>, b: &Vec<Vec<char>>, i: usize) -> (r: bool)
    requires
        i < a@.len(),
        i < b@.len(),
    ensures
        r == (a@[i as int]@ == b@[i as int]@),
{
    vec_eq(&a[i], &b[i])
}


/// The index of the last `c` in `cs` before position `end`.
pub open spec fn last_index(cs: Seq<char>, c: char, end: int) -> Option<int>
    decreases end,
{
    if end <= 0 {
        None
    } else if cs[end - 1] == c {
        Some(end - 1)
    } else {
        last_index(cs, c, end - 1)
    }
}

/// The directory of an entry name: everything before its last `/` (empty at the root).
pub open spec fn dir_of(cs: Seq<char>) -> Seq<char> {
    match last_index(cs, '/', cs.len() as int) {
        Some(i) => cs.take(i),
        None => seq![],
    }
}

/// The file name of an entry name: everything after its last `/`.
pub open spec fn file_name_of(cs: Seq<char>) -> Seq<char> {
    match last_index(cs, '/', cs.len() as int) {
        Some(i) => cs.skip(i + 1),
        None => cs,
    }
}

/// The extension of an entry name: everything after its last `.`, if it has one.
pub open spec fn ext_of(cs: Seq<char>) -> Option<Seq<char>> {
    match last_index(cs, '.', cs.len() as int) {
        Some(i) => Some(cs.skip(i + 1)),
        None => None,
    }
}

fn find_last(cs: &Vec<char>, c: char) -> (r: Option<usize>)
    ensures
        r matches Some(k) ==> k < cs@.len() && last_index(cs@, c, cs@.len() as int) == Some(k as int),
        r is None <==> last_index(cs@, c, cs@.len() as int) is None,
{
    let mut end = cs.len();
    while end > 0
        invariant
            end <= cs@.len(),
            last_index(cs@, c, cs@.len() as int) == last_index(cs@, c, end as int),
        decreases end,
    {
        if cs[end - 1] == c {
            return Some(end - 1);
        }
        end = end - 1;
    }
    None
}

fn string_from(cs: &Vec<char>, from: usize, to: usize) -> (s: String)
    requires
        from <= to <= cs@.len(),
    ensures
        s@ == cs@.subrange(from as int, to as int),
{
    crate::chars::string_of(cs, from, to)
}

/// The directory of an entry name.
pub fn dir(uri: &str) -> (r: String)
    ensures
        r@ == dir_of(uri@),
{
    let cs = chars_of(uri);
    match find_last(&cs, '/') {
        Some(i) => {
            let r = string_from(&cs, 0, i);
            assert(cs@.subrange(0, i as int) =~= cs@.take(i as int));
            r
        },
        None => String::new(),
    }
}

/// The file name of an entry name.
pub fn file_name(uri: &str) -> (r: String)
    ensures
        r@ == file_name_of(uri@),
{
    let cs = chars_of(uri);
    let n = cs.len();
    match find_last(&cs, '/') {
        Some(i) => {
            let r = string_from(&cs, i + 1, n);
            assert(cs@.subrange(i + 1, cs@.len() as int) =~= cs@.skip(i + 1));
            r
        },
        None => string_from(&cs, 0, cs.len()),
    }
}

/// The extension of an entry name.
pub fn extension(uri: &str) -> (r: Option<String>)
    ensures
        match ext_of(uri@) {
            Some(e) => r matches Some(x) && x@ == e,
            None => r is None,
        },
{
    let cs = chars_of(uri);
    let n = cs.len();
    match find_last(&cs, '.') {
        Some(i) => {
            let r = string_from(&cs, i + 1, n);
            assert(cs@.subrange(i + 1, cs@.len() as int) =~= cs@.skip(i + 1));
            Some(r)
        },
        None => None,
    }
}

/// `s` without the prefix `p`, when it starts with it.
pub open spec fn strip(s: Seq<char>, p: Seq<char>) -> Option<Seq<char>> {
    if p.len() <= s.len() && s.take(p.len() as int) == p {
        Some(s.skip(p.len() as int))
    } else {
        None
    }
}

/// `s` without the prefix `p`, when it starts with it.
pub fn strip_prefix(s: &str, p: &str) -> (r: Option<String>)
    ensures
        match strip(s@, p@) {
            Some(t) => r matches Some(x) && x@ == t,
            None => r is None,
        },
{
    let cs = chars_of(s);
    let n = p.unicode_len();
    if crate::chars::at_lit(&cs, 0, p) {
        assert(cs@.subrange(0, n as int) =~= cs@.take(n as int));
        let r = string_from(&cs, n, cs.len());
        assert(cs@.subrange(n as int, cs@.len() as int) =~= cs@.skip(n as int));
        Some(r)
    } else {
        proof {
            if n <= cs@.len() {
                assert(cs@.subrange(0, n as int) =~= cs@.take(n as int));
            }
        }
        None
    }
}

/// Two characters equal up to ASCII case.
pub open spec fn char_ci(x: char, y: char) -> bool {
    let a = x as u32;
    let b = y as u32;
    a == b || (0x41 <= a && a <= 0x5A && b == a + 32) || (0x41 <= b && b <= 0x5A && a == b + 32)
}

/// Equal up to ASCII case.
pub open spec fn eq_ascii_ci(a: Seq<char>, b: Seq<char>) -> bool {
    a.len() == b.len() && forall|i: int| 0 <= i < a.len() ==> char_ci(a[i], b[i])
}

/// Are `a` and `b` equal up to ASCII case?
pub fn eq_ignore_ascii_case(a: &str, b: &str) -> (r: bool)
    ensures
        r == eq_ascii_ci(a@, b@),
{
    let x = chars_of(a);
    let y = chars_of(b);
    if x.len() != y.len() {
        return false;
    }
    for i in 0..x.len()
        invariant
            x@ == a@,
            y@ == b@,
            x@.len() == y@.len(),
            forall|j: int| 0 <= j < i ==> char_ci(a@[j], b@[j]),
    {
        let p = x[i] as u32;
        let q = y[i] as u32;
        let same = p == q || (0x41 <= p && p <= 0x5A && q == p + 32) || (0x41 <= q && q <= 0x5A && p == q + 32);
        if !same {
            return false;
        }
    }
    true
}

} // verus!

use vstd::prelude::*;
use crate::chars::str_eq;
use crate::xml::{NewElement, element_same};

verus! {

/// A token of the coordinate stream.
#[derive(Debug, Clone, PartialEq, Eq)]
pub enum Tok<'a> {
    /// A plain text run: its text and `w:rPr`.
    Run(&'a str, Option<Box<NewElement>>),
    /// Any other inline, compared as a whole.
    Atom(String),
}

/// One piece of an edit script.
#[derive(Debug, Clone, Copy, PartialEq, Eq, Structural)]
pub enum Step {
    /// Both sides advance `n` tokens.
    Equal(usize),
    /// `n` old tokens are removed.
    Delete(usize),
    /// `n` new tokens are inserted.
    Insert(usize),
}

/// Above this many tokens on either side no script is computed.
pub const DIFF_LIMIT: usize = 4000;

/// Two tokens are equal: same text and structurally equal properties, or same atom key.
pub open spec fn tok_same(a: Tok, b: Tok) -> bool {
    match (a, b) {
        (Tok::Run(t1, p1), Tok::Run(t2, p2)) => t1@ == t2@ && match (p1, p2) {
            (None, None) => true,
            (Some(x), Some(y)) => element_same(*x, *y),
            _ => false,
        },
        (Tok::Atom(s1), Tok::Atom(s2)) => s1@ == s2@,
        _ => false,
    }
}

/// Are two tokens equal?
pub fn tok_eq(a: &Tok, b: &Tok) -> (r: bool)
    ensures
        r == tok_same(*a, *b),
{
    match (a, b) {
        (Tok::Run(t1, p1), Tok::Run(t2, p2)) => {
            if !str_eq(t1, t2) {
                return false;
            }
            match (p1, p2) {
                (None, None) => true,
                (Some(x), Some(y)) => x.same(y),
                _ => false,
            }
        },
        (Tok::Atom(s1), Tok::Atom(s2)) => str_eq(s1.as_str(), s2.as_str()),
        _ => false,
    }
}

/// A unit move of a script.
#[derive(Debug, Clone, Copy, PartialEq, Eq, Structural)]
pub enum Move {
    Keep,
    Drop,
    Add,
}

pub open spec fn step_move(s: Step) -> Move {
    match s {
        Step::Equal(_) => Move::Keep,
        Step::Delete(_) => Move::Drop,
        Step::Insert(_) => Move::Add,
    }
}

pub open spec fn step_count(s: Step) -> nat {
    match s {
        Step::Equal(n) | Step::Delete(n) | Step::Insert(n) => n as nat,
    }
}

/// The unit moves of a script, in order.
pub open spec fn expand(s: Seq<Step>) -> Seq<Move>
    decreases s.len(),
{
    if s.len() == 0 {
        seq![]
    } else {
        expand(s.drop_last()) + Seq::new(step_count(s.last()), |i: int| step_move(s.last()))
    }
}

/// Where unit moves `u` lead from the start of both sides: `None` when a move leaves a side,
/// or keeps two tokens that differ.
pub open spec fn walk(u: Seq<Move>, a: Seq<Tok>, b: Seq<Tok>) -> Option<(int, int)>
    decreases u.len(),
{
    if u.len() == 0 {
        Some((0, 0))
    } else {
        match walk(u.drop_last(), a, b) {
            None => None,
            Some((i, j)) => match u.last() {
                Move::Keep => if i < a.len() && j < b.len() && tok_same(a[i], b[j]) {
                    Some((i + 1, j + 1))
                } else {
                    None
                },
                Move::Drop => if i < a.len() {
                    Some((i + 1, j))
                } else {
                    None
                },
                Move::Add => if j < b.len() {
                    Some((i, j + 1))
                } else {
                    None
                },
            },
        }
    }
}

/// `s` turns `a` into `b`: its moves walk both sides to their ends, keeping only equal
/// tokens.
pub open spec fn script_ok(s: Seq<Step>, a: Seq<Tok>, b: Seq<Tok>) -> bool {
    walk(expand(s), a, b) == Some((a.len() as int, b.len() as int))
}

/// Step `i` is not of the same kind as the step before it.
pub open spec fn differs_from_prev(s: Seq<Step>, i: int) -> bool {
    step_move(s[i - 1]) != step_move(s[i])
}

/// No empty step, and no two neighbours of the same kind.
pub open spec fn merged(s: Seq<Step>) -> bool {
    &&& forall|i: int| 0 <= i < s.len() ==> step_count(#[trigger] s[i]) > 0
    &&& forall|i: int| 0 < i < s.len() ==> #[trigger] differs_from_prev(s, i)
}

/// Total count of a script.
pub open spec fn total(s: Seq<Step>) -> nat
    decreases s.len(),
{
    if s.len() == 0 {
        0
    } else {
        total(s.drop_last()) + step_count(s.last())
    }
}

pub proof fn lemma_expand_len(s: Seq<Step>)
    ensures
        expand(s).len() == total(s),
    decreases s.len(),
{
    if s.len() > 0 {
        lemma_expand_len(s.drop_last());
    }
}

pub proof fn lemma_total_prefix(s: Seq<Step>, k: int)
    requires
        0 <= k <= s.len(),
    ensures
        total(s.take(k)) <= total(s),
    decreases s.len() - k,
{
    if k < s.len() {
        lemma_total_prefix(s, k + 1);
        assert(s.take(k + 1).drop_last() =~= s.take(k));
    } else {
        assert(s.take(k) =~= s);
    }
}

pub open spec fn with_count(s: Step, n: nat) -> Step {
    match s {
        Step::Equal(_) => Step::Equal(n as usize),
        Step::Delete(_) => Step::Delete(n as usize),
        Step::Insert(_) => Step::Insert(n as usize),
    }
}

/// `n` copies of move `m`.
pub open spec fn rep(m: Move, n: nat) -> Seq<Move> {
    Seq::new(n, |i: int| m)
}

/// Merging a step into a last step of the same kind keeps the moves.
proof fn lemma_merge_same_moves(before: Seq<Step>, st: Step, m: Step)
    requires
        before.len() > 0,
        step_move(before.last()) == step_move(st),
        step_move(m) == step_move(st),
        step_count(m) == step_count(before.last()) + step_count(st),
    ensures
        expand(before.drop_last().push(m)) == expand(before) + rep(step_move(st), step_count(st)),
        total(before.drop_last().push(m)) == total(before) + step_count(st),
{
    let out = before.drop_last().push(m);
    assert(out.drop_last() =~= before.drop_last());
    assert(out.last() == m);
    let e0 = expand(before.drop_last());
    assert(expand(out) == e0 + rep(step_move(m), step_count(m)));
    assert(expand(before) == e0 + rep(step_move(before.last()), step_count(before.last())));
    assert(rep(step_move(st), step_count(m)) =~= rep(step_move(st), step_count(before.last())) + rep(step_move(st), step_count(st)));
    assert(e0 + rep(step_move(st), step_count(m)) =~= e0 + rep(step_move(st), step_count(before.last())) + rep(step_move(st), step_count(st)));
}

/// Merging a step into a last step of the same kind keeps the script merged.
proof fn lemma_merge_same_shape(before: Seq<Step>, st: Step, m: Step)
    requires
        before.len() > 0,
        merged(before),
        step_move(before.last()) == step_move(st),
        step_move(m) == step_move(st),
        step_count(m) > 0,
    ensures
        merged(before.drop_last().push(m)),
{
    let out = before.drop_last().push(m);
    assert forall|i: int| 0 <= i < out.len() implies step_count(#[trigger] out[i]) > 0 by {
        if i < out.len() - 1 {
            assert(out[i] == before[i]);
        }
    }
    assert forall|i: int| 0 < i < out.len() implies #[trigger] differs_from_prev(out, i) by {
        assert(differs_from_prev(before, i));
        assert(out[i - 1] == before[i - 1]);
        if i < out.len() - 1 {
            assert(out[i] == before[i]);
        }
    }
}

/// Appending a step keeps the moves.
proof fn lemma_push_moves(before: Seq<Step>, st: Step)
    ensures
        expand(before.push(st)) == expand(before) + rep(step_move(st), step_count(st)),
        total(before.push(st)) == total(before) + step_count(st),
{
    assert(before.push(st).drop_last() =~= before);
}

/// Appending a non-empty step of another kind keeps the script merged.
proof fn lemma_push_shape(before: Seq<Step>, st: Step)
    requires
        merged(before),
        step_count(st) > 0,
        before.len() > 0 ==> step_move(before.last()) != step_move(st),
    ensures
        merged(before.push(st)),
{
    let out = before.push(st);
    assert forall|i: int| 0 <= i < out.len() implies step_count(#[trigger] out[i]) > 0 by {
        if i < before.len() {
            assert(out[i] == before[i]);
        }
    }
    assert forall|i: int| 0 < i < out.len() implies #[trigger] differs_from_prev(out, i) by {
        assert(out[i - 1] == before[i - 1]);
        if i < before.len() {
            assert(differs_from_prev(before, i));
            assert(out[i] == before[i]);
        }
    }
}

/// The moves of a prefix one step longer.
proof fn lemma_expand_take(s: Seq<Step>, k: int)
    requires
        0 <= k < s.len(),
    ensures
        expand(s.take(k + 1)) == expand(s.take(k)) + rep(step_move(s[k]), step_count(s[k])),
        total(s.take(k + 1)) == total(s.take(k)) + step_count(s[k]),
{
    assert(s.take(k + 1).drop_last() =~= s.take(k));
    assert(s.take(k + 1).last() == s[k]);
    assert(expand(s.take(k + 1)) =~= expand(s.take(k)) + rep(step_move(s[k]), step_count(s[k])));
}

impl Step {
    /// The script with empty steps dropped and neighbours of the same kind merged; it makes
    /// the same moves.
    pub fn merge(steps: Vec<Step>) -> (out: Vec<Step>)
        requires
            total(steps@) <= usize::MAX,
        ensures
            merged(out@),
            expand(out@) == expand(steps@),
    {
        let mut out: Vec<Step> = Vec::new();
        let ghost s = steps@;
        proof {
            assert(s.take(0) =~= Seq::<Step>::empty());
        }
        for k in 0..steps.len()
            invariant
                s == steps@,
                total(s) <= usize::MAX,
                merged(out@),
                expand(out@) == expand(s.take(k as int)),
                total(out@) == total(s.take(k as int)),
        {
            let st = steps[k];
            proof {
                lemma_expand_take(s, k as int);
                lemma_total_prefix(s, k + 1);
            }
            let n = out.len();
            let last = if n > 0 {
                Some(out[n - 1])
            } else {
                None
            };
            let same_kind = match (last, st) {
                (Some(Step::Equal(_)), Step::Equal(_)) => true,
                (Some(Step::Delete(_)), Step::Delete(_)) => true,
                (Some(Step::Insert(_)), Step::Insert(_)) => true,
                _ => false,
            };
            let cnt: usize = match st {
                Step::Equal(c) | Step::Delete(c) | Step::Insert(c) => c,
            };
            if same_kind {
                let l = out[n - 1];
                let lc: usize = match l {
                    Step::Equal(c) | Step::Delete(c) | Step::Insert(c) => c,
                };
                proof {
                    assert(out@.drop_last().push(l) =~= out@);
                    assert(total(out@) == total(out@.drop_last()) + lc);
                }
                let m = match l {
                    Step::Equal(_) => Step::Equal(lc + cnt),
                    Step::Delete(_) => Step::Delete(lc + cnt),
                    Step::Insert(_) => Step::Insert(lc + cnt),
                };
                proof {
                    lemma_merge_same_moves(out@, st, m);
                    lemma_merge_same_shape(out@, st, m);
                }
                let ghost before = out@;
                out.set(n - 1, m);
                assert(out@ =~= before.drop_last().push(m));
            } else if cnt == 0 {
                proof {
                    assert(rep(step_move(st), 0) =~= Seq::<Move>::empty());
                    assert(expand(s.take(k + 1)) =~= expand(s.take(k as int)));
                }
            } else {
                proof {
                    lemma_push_moves(out@, st);
                    lemma_push_shape(out@, st);
                }
                out.push(st);
            }
        }
        proof {
            assert(s.take(s.len() as int) =~= s);
        }
        out
    }
}


proof fn lemma_walk_push(u: Seq<Move>, mv: Move, a: Seq<Tok>, b: Seq<Tok>)
    ensures
        walk(u.push(mv), a, b) == match walk(u, a, b) {
            None => None,
            Some((i, j)) => match mv {
                Move::Keep => if i < a.len() && j < b.len() && tok_same(a[i], b[j]) {
                    Some((i + 1, j + 1))
                } else {
                    None
                },
                Move::Drop => if i < a.len() {
                    Some((i + 1, j))
                } else {
                    None
                },
                Move::Add => if j < b.len() {
                    Some((i, j + 1))
                } else {
                    None
                },
            },
        },
{
    assert(u.push(mv).drop_last() =~= u);
}

proof fn lemma_walk_none_extends(u: Seq<Move>, w: Seq<Move>, a: Seq<Tok>, b: Seq<Tok>)
    requires
        walk(u, a, b) is None,
    ensures
        walk(u + w, a, b) is None,
    decreases w.len(),
{
    if w.len() == 0 {
        assert(u + w =~= u);
    } else {
        lemma_walk_none_extends(u, w.drop_last(), a, b);
        assert((u + w).drop_last() =~= u + w.drop_last());
    }
}

proof fn lemma_expand_concat(x: Seq<Step>, y: Seq<Step>)
    ensures
        expand(x + y) == expand(x) + expand(y),
    decreases y.len(),
{
    if y.len() == 0 {
        assert(x + y =~= x);
        assert(expand(x) + expand(y) =~= expand(x));
    } else {
        lemma_expand_concat(x, y.drop_last());
        assert((x + y).drop_last() =~= x + y.drop_last());
        assert((x + y).last() == y.last());
        let r = rep(step_move(y.last()), step_count(y.last()));
        assert(expand(x) + expand(y.drop_last()) + r =~= expand(x) + (expand(y.drop_last()) + r));
    }
}

/// A failed move dooms the whole script.
proof fn lemma_failed_move(s: Seq<Step>, k: int, t: nat, mv: Move, a: Seq<Tok>, b: Seq<Tok>)
    requires
        0 <= k < s.len(),
        step_move(s[k]) == mv,
        t < step_count(s[k]),
        walk((expand(s.take(k)) + rep(mv, t)).push(mv), a, b) is None,
    ensures
        !script_ok(s, a, b),
{
    let cnt = step_count(s[k]);
    let u = (expand(s.take(k)) + rep(mv, t)).push(mv);
    let rest = rep(mv, (cnt - t - 1) as nat) + expand(s.skip(k + 1));
    lemma_walk_none_extends(u, rest, a, b);
    assert(s =~= s.take(k + 1) + s.skip(k + 1));
    lemma_expand_concat(s.take(k + 1), s.skip(k + 1));
    lemma_expand_take(s, k);
    assert(rep(mv, cnt) =~= rep(mv, t).push(mv) + rep(mv, (cnt - t - 1) as nat));
    assert(expand(s) =~= u + rest);
}

/// Does `steps` turn `a` into `b`?
pub fn check_script(steps: &Vec<Step>, a: &[Tok], b: &[Tok]) -> (r: bool)
    ensures
        r == script_ok(steps@, a@, b@),
{
    let mut i: usize = 0;
    let mut j: usize = 0;
    let ghost s = steps@;
    let ghost mut u: Seq<Move> = seq![];
    proof {
        assert(s.take(0) =~= Seq::<Step>::empty());
    }
    for k in 0..steps.len()
        invariant
            s == steps@,
            u == expand(s.take(k as int)),
            walk(u, a@, b@) == Some((i as int, j as int)),
            i <= a@.len(),
            j <= b@.len(),
    {
        let st = steps[k];
        let (mv, cnt) = match st {
            Step::Equal(c) => (Move::Keep, c),
            Step::Delete(c) => (Move::Drop, c),
            Step::Insert(c) => (Move::Add, c),
        };
        let ghost u0 = u;
        proof {
            assert(rep(mv, 0) =~= Seq::<Move>::empty());
            assert(u0 + rep(mv, 0) =~= u0);
        }
        let mut t: usize = 0;
        while t < cnt
            invariant
                t <= cnt,
                s == steps@,
                0 <= k < s.len(),
                s[k as int] == st,
                step_move(st) == mv,
                step_count(st) == cnt,
                u0 == expand(s.take(k as int)),
                u == u0 + rep(mv, t as nat),
                walk(u, a@, b@) == Some((i as int, j as int)),
                i <= a@.len(),
                j <= b@.len(),
            decreases cnt - t,
        {
            proof {
                lemma_walk_push(u, mv, a@, b@);
                assert(rep(mv, (t + 1) as nat) =~= rep(mv, t as nat).push(mv));
                assert(u0 + rep(mv, (t + 1) as nat) =~= (u0 + rep(mv, t as nat)).push(mv));
            }
            match mv {
                Move::Keep => {
                    if i < a.len() && j < b.len() && tok_eq(&a[i], &b[j]) {
                        i = i + 1;
                        j = j + 1;
                    } else {
                        proof {
                            lemma_failed_move(s, k as int, t as nat, mv, a@, b@);
                        }
                        return false;
                    }
                },
                Move::Drop => {
                    if i < a.len() {
                        i = i + 1;
                    } else {
                        proof {
                            lemma_failed_move(s, k as int, t as nat, mv, a@, b@);
                        }
                        return false;
                    }
                },
                Move::Add => {
                    if j < b.len() {
                        j = j + 1;
                    } else {
                        proof {
                            lemma_failed_move(s, k as int, t as nat, mv, a@, b@);
                        }
                        return false;
                    }
                },
            }
            proof {
                u = u.push(mv);
            }
            t = t + 1;
        }
        proof {
            assert(s.take(k + 1).drop_last() =~= s.take(k as int));
            assert(s.take(k + 1).last() == st);
        }
    }
    proof {
        assert(s.take(s.len() as int) =~= s);
    }
    i == a.len() && j == b.len()
}

proof fn lemma_walk_fallback(a: Seq<Tok>, b: Seq<Tok>, t: nat, phase2: bool)
    requires
        !phase2 ==> t <= a.len(),
        phase2 ==> t <= b.len(),
    ensures
        !phase2 ==> walk(rep(Move::Drop, t), a, b) == Some((t as int, 0int)),
        phase2 ==> walk(rep(Move::Drop, a.len()) + rep(Move::Add, t), a, b) == Some((a.len() as int, t as int)),
    decreases (if phase2 { 1int } else { 0int }), t,
{
    if !phase2 {
        if t > 0 {
            lemma_walk_fallback(a, b, (t - 1) as nat, false);
            assert(rep(Move::Drop, t) =~= rep(Move::Drop, (t - 1) as nat).push(Move::Drop));
            lemma_walk_push(rep(Move::Drop, (t - 1) as nat), Move::Drop, a, b);
        } else {
            assert(rep(Move::Drop, 0) =~= Seq::<Move>::empty());
        }
    } else {
        if t > 0 {
            lemma_walk_fallback(a, b, (t - 1) as nat, true);
            let u = rep(Move::Drop, a.len()) + rep(Move::Add, (t - 1) as nat);
            assert(rep(Move::Drop, a.len()) + rep(Move::Add, t) =~= u.push(Move::Add));
            lemma_walk_push(u, Move::Add, a, b);
        } else {
            lemma_walk_fallback(a, b, a.len(), false);
            assert(rep(Move::Drop, a.len()) + rep(Move::Add, 0) =~= rep(Move::Drop, a.len()));
        }
    }
}

/// The script that deletes all of `a` and inserts all of `b`.
fn replace_all(a: &[Tok], b: &[Tok]) -> (r: Vec<Step>)
    requires
        a@.len() <= DIFF_LIMIT,
        b@.len() <= DIFF_LIMIT,
    ensures
        script_ok(r@, a@, b@),
        merged(r@),
{
    let mut v: Vec<Step> = Vec::new();
    v.push(Step::Delete(a.len()));
    v.push(Step::Insert(b.len()));
    proof {
        let s = v@;
        let s1 = seq![Step::Delete(a.len())];
        assert(s.drop_last() =~= s1);
        assert(s.last() == Step::Insert(b.len()));
        assert(s1.drop_last() =~= Seq::<Step>::empty());
        assert(s1.last() == Step::Delete(a.len()));
        assert(expand(Seq::<Step>::empty()) =~= Seq::<Move>::empty());
        assert(expand(s1) == expand(Seq::<Step>::empty()) + rep(Move::Drop, a@.len()));
        assert(expand(s1) =~= rep(Move::Drop, a@.len()));
        assert(expand(s) =~= rep(Move::Drop, a@.len()) + rep(Move::Add, b@.len()));
        lemma_walk_fallback(a@, b@, b@.len(), true);
        assert(total(Seq::<Step>::empty()) == 0);
        assert(total(s1) == a.len());
        assert(total(s) == a.len() + b.len());
    }
    Step::merge(v)
}

/// The sum of the counts of `steps`, when it fits.
fn script_total(steps: &Vec<Step>) -> (r: Option<usize>)
    ensures
        r matches Some(t) ==> t == total(steps@),
        total(steps@) <= usize::MAX ==> r is Some,
{
    let mut sum: usize = 0;
    let ghost s = steps@;
    proof {
        assert(s.take(0) =~= Seq::<Step>::empty());
    }
    for k in 0..steps.len()
        invariant
            s == steps@,
            sum == total(s.take(k as int)),
    {
        proof {
            assert(s.take(k + 1).drop_last() =~= s.take(k as int));
            assert(s.take(k + 1).last() == s[k as int]);
            lemma_total_prefix(s, k + 1);
        }
        let c: usize = match steps[k] {
            Step::Equal(c) | Step::Delete(c) | Step::Insert(c) => c,
        };
        if c > usize::MAX - sum {
            return None;
        }
        sum = sum + c;
    }
    proof {
        assert(s.take(s.len() as int) =~= s);
    }
    Some(sum)
}

fn copy_usizes(v: &Vec<usize>) -> (r: Vec<usize>)
    ensures
        r@ == v@,
{
    let mut r: Vec<usize> = Vec::new();
    for i in 0..v.len()
        invariant
            r@ == v@.take(i as int),
    {
        r.push(v[i]);
        assert(v@.take(i + 1) =~= v@.take(i as int).push(v@[i as int]));
    }
    assert(v@.take(v@.len() as int) =~= v@);
    r
}

/// The edit script read back from the rounds Myers recorded (standard backtracking, built
/// backwards and then reversed). `None` when the trace does not lead back to the start.
fn backtrack(trace: &Vec<Vec<usize>>, n: usize, m: usize, offset: isize) -> (r: Option<Vec<Step>>)
    requires
        n <= DIFF_LIMIT,
        m <= DIFF_LIMIT,
        0 <= offset <= 2 * DIFF_LIMIT,
        trace@.len() <= 2 * DIFF_LIMIT + 1,
        forall|t: int, i: int| 0 <= t < trace@.len() && 0 <= i < trace@[t]@.len() ==> #[trigger] trace@[t]@[i] <= 4 * DIFF_LIMIT + 2,
    ensures
        r matches Some(s) ==> forall|i: int| 0 <= i < s@.len() ==> step_count(#[trigger] s@[i]) == 1,
{
    let mut steps: Vec<Step> = Vec::new();
    let mut x: isize = n as isize;
    let mut y: isize = m as isize;
    let mut t: usize = trace.len();
    while t > 0
        invariant
            t <= trace@.len(),
            trace@.len() <= 2 * DIFF_LIMIT + 1,
            0 <= offset <= 2 * DIFF_LIMIT,
            forall|tt: int, i: int| 0 <= tt < trace@.len() && 0 <= i < trace@[tt]@.len() ==> #[trigger] trace@[tt]@[i] <= 4 * DIFF_LIMIT + 2,
            0 <= x <= 4 * DIFF_LIMIT + 2,
            -(2 * DIFF_LIMIT + (trace@.len() - t)) <= x - y <= 2 * DIFF_LIMIT + (trace@.len() - t),
            forall|i: int| 0 <= i < steps@.len() ==> step_count(#[trigger] steps@[i]) == 1,
        decreases t,
    {
        t = t - 1;
        let d = t as isize;
        let v = &trace[t];
        let k = x - y;
        let idx = k + offset;
        if idx < 1 || idx + 1 >= v.len() as isize {
            return None;
        }
        let iu = idx as usize;
        let prev_k = if k == -d || (k != d && v[iu - 1] < v[iu + 1]) {
            k + 1
        } else {
            k - 1
        };
        let pidx = prev_k + offset;
        if pidx < 0 || pidx >= v.len() as isize {
            return None;
        }
        let prev_x = v[pidx as usize] as isize;
        let prev_y = prev_x - prev_k;
        while x > prev_x && y > prev_y
            invariant
                0 <= prev_x,
                0 <= x <= 4 * DIFF_LIMIT + 2,
                -(8 * DIFF_LIMIT + 8) <= y <= 8 * DIFF_LIMIT + 8,
                -(8 * DIFF_LIMIT + 8) <= prev_y <= 8 * DIFF_LIMIT + 8,
                trace@.len() <= 2 * DIFF_LIMIT + 1,
                forall|i: int| 0 <= i < steps@.len() ==> step_count(#[trigger] steps@[i]) == 1,
            decreases x,
        {
            steps.push(Step::Equal(1));
            x = x - 1;
            y = y - 1;
        }
        if d > 0 {
            if x == prev_x {
                steps.push(Step::Insert(1));
            } else {
                steps.push(Step::Delete(1));
            }
        }
        x = prev_x;
        y = prev_y;
    }
    let mut out: Vec<Step> = Vec::new();
    let mut i = steps.len();
    while i > 0
        invariant
            i <= steps@.len(),
            forall|j: int| 0 <= j < steps@.len() ==> step_count(#[trigger] steps@[j]) == 1,
            forall|j: int| 0 <= j < out@.len() ==> step_count(#[trigger] out@[j]) == 1,
        decreases i,
    {
        i = i - 1;
        out.push(steps[i]);
    }
    Some(out)
}

/// Entries of the diagonals of round `d`'s parity are at most `n + d + 1`, the others at
/// most `n + d`.
pub open spec fn v_bounded(v: Seq<usize>, off: int, n: int, d: int) -> bool {
    forall|i: int| 0 <= i < v.len() ==> (if (i - off - d) % 2 == 0 {
        #[trigger] v[i] <= n + d + 1
    } else {
        v[i] <= n + d
    })
}

/// Myers' O(ND) diff of `a[a0..a1]` against `b[b0..b1]`: each round's furthest points are
/// recorded, and the script is read back once a path reaches the end. `None` when no path
/// is found within `n + m` rounds.
fn myers(a: &[Tok], b: &[Tok], a0: usize, a1: usize, b0: usize, b1: usize) -> (r: Option<Vec<Step>>)
    requires
        a0 <= a1 <= a@.len(),
        b0 <= b1 <= b@.len(),
        a1 - a0 <= DIFF_LIMIT,
        b1 - b0 <= DIFF_LIMIT,
    ensures
        a1 == a0 ==> (r matches Some(v) && v@ == seq![Step::Insert((b1 - b0) as usize)]),
        a1 > a0 && b1 == b0 ==> (r matches Some(v) && v@ == seq![Step::Delete((a1 - a0) as usize)]),
{
    let n = a1 - a0;
    let m = b1 - b0;
    let alen = a.len();
    let blen = b.len();
    if n == 0 {
        let mut only: Vec<Step> = Vec::new();
        only.push(Step::Insert(m));
        assert(only@ =~= seq![Step::Insert(m)]);
        return Some(only);
    }
    if m == 0 {
        let mut only: Vec<Step> = Vec::new();
        only.push(Step::Delete(n));
        assert(only@ =~= seq![Step::Delete(n)]);
        return Some(only);
    }
    let max = n + m;
    let offset = max as isize;
    let size = 2 * max + 1;
    let mut v: Vec<usize> = Vec::new();
    while v.len() < size
        invariant
            v@.len() <= size,
            forall|i: int| 0 <= i < v@.len() ==> v@[i] == 0,
        decreases size - v@.len(),
    {
        v.push(0);
    }
    let mut trace: Vec<Vec<usize>> = Vec::new();
    let mut d: usize = 0;
    while d <= max
        invariant
            0 < n <= DIFF_LIMIT,
            0 < m <= DIFF_LIMIT,
            n == a1 - a0,
            m == b1 - b0,
            max == n + m,
            offset == max,
            size == 2 * max + 1,
            v@.len() == size,
            v_bounded(v@, offset as int, n as int, d as int),
            trace@.len() == d,
            d <= max + 1,
            forall|tt: int, i: int| 0 <= tt < trace@.len() && 0 <= i < trace@[tt]@.len() ==> #[trigger] trace@[tt]@[i] <= 4 * DIFF_LIMIT + 2,
            a0 + n <= alen,
                alen == a@.len(),
            b0 + m <= blen,
                blen == b@.len(),
        decreases max + 1 - d,
    {
        trace.push(copy_usizes(&v));
        let di = d as isize;
        let mut k: isize = -di;
        while k <= di
            invariant
                0 < n <= DIFF_LIMIT,
                0 < m <= DIFF_LIMIT,
                n == a1 - a0,
                m == b1 - b0,
            m == b1 - b0,
                max == n + m,
                offset == max,
                d <= max,
                di == d,
                -di <= k <= di + 2,
                (k + di) % 2 == 0,
                v@.len() == size,
                size == 2 * max + 1,
                v_bounded(v@, offset as int, n as int, d as int),
                trace@.len() == d + 1,
                forall|tt: int, i: int| 0 <= tt < trace@.len() && 0 <= i < trace@[tt]@.len() ==> #[trigger] trace@[tt]@[i] <= 4 * DIFF_LIMIT + 2,
                a0 + n <= alen,
                alen == a@.len(),
                b0 + m <= blen,
                blen == b@.len(),
            decreases di + 2 - k,
        {
            let idx = (k + offset) as usize;
            proof {
                assert((idx - 1 - offset - d) % 2 != 0);
                assert((idx + 1 - offset - d) % 2 != 0);
            }
            let mut x: usize = if k == -di || (k != di && v[idx - 1] < v[idx + 1]) {
                v[idx + 1]
            } else {
                v[idx - 1] + 1
            };
            let mut y: isize = x as isize - k;
            loop
                invariant
                    x <= n + d + 1,
                    0 < n <= DIFF_LIMIT,
                    0 < m <= DIFF_LIMIT,
                    d <= max,
                    max == n + m,
                    -2 * DIFF_LIMIT - 1 <= y <= 6 * DIFF_LIMIT + 2,
                    a0 + n <= alen,
                alen == a@.len(),
                    b0 + m <= blen,
                blen == b@.len(),
                decreases n - x,
            {
                if !(x < n && 0 <= y && (y as usize) < m) {
                    break;
                }
                let yu = y as usize;
                if !tok_eq(&a[a0 + x], &b[b0 + yu]) {
                    break;
                }
                x = x + 1;
                y = y + 1;
            }
            proof {
                assert((idx - offset - d) % 2 == 0);
            }
            v.set(idx, x);
            if x >= n && (y < 0 || (y as usize) >= m) {
                return backtrack(&trace, n, m, offset);
            }
            k = k + 2;
        }
        proof {
            assert forall|i: int| 0 <= i < v@.len() implies (if (i - offset - (d + 1)) % 2 == 0 {
                #[trigger] v@[i] <= n + (d + 1) + 1
            } else {
                v@[i] <= n + (d + 1)
            }) by {
                if (i - offset - d) % 2 == 0 {
                    assert((i - offset - (d + 1)) % 2 != 0);
                } else {
                    assert((i - offset - (d + 1)) % 2 == 0);
                }
            }
        }
        d = d + 1;
    }
    None
}

/// Two token lists hold equal tokens, position by position.
pub open spec fn same_toks(a: Seq<Tok>, b: Seq<Tok>) -> bool {
    a.len() == b.len() && forall|i: int| 0 <= i < a.len() ==> tok_same(a[i], b[i])
}

proof fn lemma_walk_keeps(a: Seq<Tok>, b: Seq<Tok>, t: nat)
    requires
        same_toks(a, b),
        t <= a.len(),
    ensures
        walk(rep(Move::Keep, t), a, b) == Some((t as int, t as int)),
    decreases t,
{
    if t == 0 {
        assert(rep(Move::Keep, 0) =~= Seq::<Move>::empty());
    } else {
        lemma_walk_keeps(a, b, (t - 1) as nat);
        assert(rep(Move::Keep, t) =~= rep(Move::Keep, (t - 1) as nat).push(Move::Keep));
        lemma_walk_push(rep(Move::Keep, (t - 1) as nat), Move::Keep, a, b);
    }
}

/// A merged script that only keeps is a single `Equal` (or empty).
proof fn lemma_only_keeps(s: Seq<Step>, n: nat)
    requires
        merged(s),
        expand(s) == rep(Move::Keep, n),
    ensures
        s == (if n == 0 { seq![] } else { seq![Step::Equal(n as usize)] }),
{
    assert forall|j: int| 0 <= j < s.len() implies step_move(#[trigger] s[j]) == Move::Keep by {
        assert(s =~= s.take(j + 1) + s.skip(j + 1));
        lemma_expand_concat(s.take(j + 1), s.skip(j + 1));
        lemma_expand_take(s, j);
        let pre = expand(s.take(j));
        let e1 = expand(s.take(j + 1));
        assert(step_count(s[j]) > 0);
        assert(e1 == pre + rep(step_move(s[j]), step_count(s[j])));
        assert(e1[pre.len() as int] == step_move(s[j]));
        assert(expand(s) == e1 + expand(s.skip(j + 1)));
        assert(expand(s)[pre.len() as int] == e1[pre.len() as int]);
        assert(rep(Move::Keep, n).len() == n);
        assert(pre.len() < e1.len());
        assert(rep(Move::Keep, n)[pre.len() as int] == Move::Keep);
    }
    if s.len() >= 2 {
        assert(differs_from_prev(s, 1));
        assert(step_move(s[0]) == Move::Keep);
        assert(step_move(s[1]) == Move::Keep);
    }
    if s.len() == 1 {
        assert(s =~= seq![s[0]]);
        lemma_single_expand(s[0]);
        assert(expand(s).len() == step_count(s[0]));
        assert(step_count(s[0]) == n);
        assert(s[0] == Step::Equal(n as usize));
        assert(s =~= seq![Step::Equal(n as usize)]);
    }
    if s.len() == 0 {
        assert(expand(s) =~= Seq::<Move>::empty());
        assert(rep(Move::Keep, n).len() == n);
        assert(s =~= Seq::<Step>::empty());
    }
}

proof fn lemma_single_expand(st: Step)
    ensures
        expand(seq![st]) == rep(step_move(st), step_count(st)),
{
    let one = seq![st];
    assert(one.drop_last() =~= Seq::<Step>::empty());
    assert(one.last() == st);
    assert(expand(Seq::<Step>::empty()) =~= Seq::<Move>::empty());
    assert(expand(one) == expand(one.drop_last()) + rep(step_move(one.last()), step_count(one.last())));
    assert(expand(one) =~= rep(step_move(st), step_count(st)));
}

/// How many tokens a sequence of moves deletes or inserts.
pub open spec fn moves_cost(u: Seq<Move>) -> nat
    decreases u.len(),
{
    if u.len() == 0 {
        0
    } else {
        moves_cost(u.drop_last()) + (if u.last() == Move::Keep { 0nat } else { 1nat })
    }
}

/// How many tokens a script deletes or inserts: the total of its `Delete` and `Insert` steps.
pub open spec fn changes(s: Seq<Step>) -> nat
    decreases s.len(),
{
    if s.len() == 0 {
        0
    } else {
        changes(s.drop_last()) + (match s.last() {
            Step::Equal(_) => 0nat,
            Step::Delete(n) | Step::Insert(n) => n as nat,
        })
    }
}

/// The least number of tokens that must be deleted from `a` or inserted into it to turn it
/// into `b`, equal tokens being kept for free.
pub open spec fn edit_dist(a: Seq<Tok>, b: Seq<Tok>) -> nat
    decreases a.len() + b.len(),
{
    if a.len() == 0 {
        b.len()
    } else if b.len() == 0 {
        a.len()
    } else {
        let del = 1 + edit_dist(a.drop_last(), b);
        let ins = 1 + edit_dist(a, b.drop_last());
        let best: nat = if del <= ins { del } else { ins };
        if tok_same(a.last(), b.last()) {
            let keep = edit_dist(a.drop_last(), b.drop_last());
            if keep <= best { keep } else { best }
        } else {
            best
        }
    }
}

proof fn lemma_moves_cost_concat(x: Seq<Move>, y: Seq<Move>)
    ensures
        moves_cost(x + y) == moves_cost(x) + moves_cost(y),
    decreases y.len(),
{
    if y.len() == 0 {
        assert(x + y =~= x);
    } else {
        lemma_moves_cost_concat(x, y.drop_last());
        assert((x + y).drop_last() =~= x + y.drop_last());
        assert((x + y).last() == y.last());
    }
}

proof fn lemma_moves_cost_rep(m: Move, n: nat)
    ensures
        moves_cost(rep(m, n)) == (if m == Move::Keep { 0 } else { n }),
    decreases n,
{
    if n > 0 {
        lemma_moves_cost_rep(m, (n - 1) as nat);
        assert(rep(m, n).drop_last() =~= rep(m, (n - 1) as nat));
    } else {
        assert(rep(m, n) =~= Seq::<Move>::empty());
    }
}

/// The cost of a script's moves is the total of its `Delete` and `Insert` steps.
proof fn lemma_changes_moves(s: Seq<Step>)
    ensures
        changes(s) == moves_cost(expand(s)),
    decreases s.len(),
{
    if s.len() > 0 {
        lemma_changes_moves(s.drop_last());
        lemma_moves_cost_concat(expand(s.drop_last()), rep(step_move(s.last()), step_count(s.last())));
        lemma_moves_cost_rep(step_move(s.last()), step_count(s.last()));
        assert(expand(s) == expand(s.drop_last()) + rep(step_move(s.last()), step_count(s.last())));
    } else {
        assert(expand(s) =~= Seq::<Move>::empty());
    }
}

/// Moves that walk to `(i, j)` delete or insert at least the edit distance of the prefixes
/// they cover.
proof fn lemma_walk_cost(u: Seq<Move>, a: Seq<Tok>, b: Seq<Tok>)
    ensures
        walk(u, a, b) matches Some((i, j)) ==> moves_cost(u) >= edit_dist(a.take(i), b.take(j)),
    decreases u.len(),
{
    if u.len() == 0 {
        assert(a.take(0).len() == 0);
    } else {
        lemma_walk_cost(u.drop_last(), a, b);
        if let Some((i0, j0)) = walk(u.drop_last(), a, b) {
            if let Some((i, j)) = walk(u, a, b) {
                lemma_walk_range(u.drop_last(), a, b);
                let x = a.take(i);
                let y = b.take(j);
                match u.last() {
                    Move::Keep => {
                        assert(x.drop_last() =~= a.take(i0));
                        assert(y.drop_last() =~= b.take(j0));
                        assert(x.last() == a[i0]);
                        assert(y.last() == b[j0]);
                    },
                    Move::Drop => {
                        assert(x.drop_last() =~= a.take(i0));
                        assert(j == j0);
                        if j == 0 {
                            assert(y.len() == 0);
                            assert(a.take(i0).len() == i0);
                        }
                    },
                    Move::Add => {
                        assert(y.drop_last() =~= b.take(j0));
                        assert(i == i0);
                        if i == 0 {
                            assert(x.len() == 0);
                            assert(b.take(j0).len() == j0);
                        }
                    },
                }
            }
        }
    }
}

proof fn lemma_walk_range(u: Seq<Move>, a: Seq<Tok>, b: Seq<Tok>)
    ensures
        walk(u, a, b) matches Some((i, j)) ==> 0 <= i <= a.len() && 0 <= j <= b.len(),
    decreases u.len(),
{
    if u.len() > 0 {
        lemma_walk_range(u.drop_last(), a, b);
    }
}

/// No script turns `a` into `b` with fewer deletions and insertions than their edit
/// distance.
pub proof fn law_script_cost_at_least_edit_distance(s: Seq<Step>, a: Seq<Tok>, b: Seq<Tok>)
    requires
        script_ok(s, a, b),
    ensures
        changes(s) >= edit_dist(a, b),
{
    lemma_changes_moves(s);
    lemma_walk_cost(expand(s), a, b);
    assert(a.take(a.len() as int) =~= a);
    assert(b.take(b.len() as int) =~= b);
}

proof fn lemma_dist_bound(a: Seq<Tok>, b: Seq<Tok>)
    ensures
        edit_dist(a, b) <= a.len() + b.len(),
    decreases a.len() + b.len(),
{
    if a.len() > 0 && b.len() > 0 {
        lemma_dist_bound(a.drop_last(), b);
    }
}

/// The edit distance of two prefixes, one token longer on either side, from the shorter ones.
proof fn lemma_dist_step(a: Seq<Tok>, b: Seq<Tok>, i: int, j: int)
    requires
        0 <= i <= a.len(),
        0 <= j <= b.len(),
    ensures
        i == 0 ==> edit_dist(a.take(i), b.take(j)) == j,
        i > 0 && j == 0 ==> edit_dist(a.take(i), b.take(j)) == i,
        i > 0 && j > 0 ==> edit_dist(a.take(i), b.take(j)) == ({
            let del = 1 + edit_dist(a.take(i - 1), b.take(j));
            let ins = 1 + edit_dist(a.take(i), b.take(j - 1));
            let best: nat = if del <= ins { del } else { ins };
            if tok_same(a[i - 1], b[j - 1]) {
                let keep = edit_dist(a.take(i - 1), b.take(j - 1));
                if keep <= best { keep } else { best }
            } else {
                best
            }
        }),
{
    if i > 0 {
        assert(a.take(i).drop_last() =~= a.take(i - 1));
        assert(a.take(i).last() == a[i - 1]);
    }
    if j > 0 {
        assert(b.take(j).drop_last() =~= b.take(j - 1));
        assert(b.take(j).last() == b[j - 1]);
    }
}

/// The edit distances of all prefixes: row `i`, column `j` holds that of `a[..i]` and
/// `b[..j]`.
fn dist_table(a: &[Tok], b: &[Tok]) -> (t: Vec<Vec<u32>>)
    requires
        a@.len() <= DIFF_LIMIT,
        b@.len() <= DIFF_LIMIT,
    ensures
        t@.len() == a@.len() + 1,
        forall|i: int| 0 <= i <= a@.len() ==> #[trigger] t@[i]@.len() == b@.len() + 1,
        forall|i: int, j: int| 0 <= i <= a@.len() && 0 <= j <= b@.len() ==> #[trigger] t@[i]@[j] == edit_dist(a@.take(i), b@.take(j)),
{
    let n = a.len();
    let m = b.len();
    let mut t: Vec<Vec<u32>> = Vec::new();
    let mut i: usize = 0;
    while i <= n
        invariant
            i <= n + 1,
            n == a@.len(),
            m == b@.len(),
            n <= DIFF_LIMIT,
            m <= DIFF_LIMIT,
            t@.len() == i,
            forall|x: int| 0 <= x < i ==> #[trigger] t@[x]@.len() == m + 1,
            forall|x: int, y: int| 0 <= x < i && 0 <= y <= m ==> #[trigger] t@[x]@[y] == edit_dist(a@.take(x), b@.take(y)),
        decreases n + 1 - i,
    {
        let mut row: Vec<u32> = Vec::new();
        let mut j: usize = 0;
        while j <= m
            invariant
                i <= n,
                j <= m + 1,
                n == a@.len(),
                m == b@.len(),
                n <= DIFF_LIMIT,
                m <= DIFF_LIMIT,
                t@.len() == i,
                forall|x: int| 0 <= x < i ==> #[trigger] t@[x]@.len() == m + 1,
                forall|x: int, y: int| 0 <= x < i && 0 <= y <= m ==> #[trigger] t@[x]@[y] == edit_dist(a@.take(x), b@.take(y)),
                row@.len() == j,
                forall|y: int| 0 <= y < j ==> #[trigger] row@[y] == edit_dist(a@.take(i as int), b@.take(y)),
            decreases m + 1 - j,
        {
            proof {
                lemma_dist_step(a@, b@, i as int, j as int);
                if i > 0 {
                    lemma_dist_bound(a@.take(i - 1), b@.take(j as int));
                    if j > 0 {
                        lemma_dist_bound(a@.take(i - 1), b@.take(j - 1));
                    }
                }
                if j > 0 {
                    lemma_dist_bound(a@.take(i as int), b@.take(j - 1));
                }
            }
            let v: u32 = if i == 0 {
                j as u32
            } else if j == 0 {
                i as u32
            } else {
                let del = t[i - 1][j] + 1;
                let ins = row[j - 1] + 1;
                let best = if del <= ins { del } else { ins };
                if tok_eq(&a[i - 1], &b[j - 1]) {
                    let keep = t[i - 1][j - 1];
                    if keep <= best { keep } else { best }
                } else {
                    best
                }
            };
            row.push(v);
            j = j + 1;
        }
        t.push(row);
        i = i + 1;
    }
    t
}

/// The move that ends a shortest script from `a[..i]` to `b[..j]`, as `dist_script` picks it.
spec fn back_move(a: Seq<Tok>, b: Seq<Tok>, i: int, j: int) -> Move {
    let d = edit_dist(a.take(i), b.take(j));
    if i > 0 && j > 0 && tok_same(a[i - 1], b[j - 1]) && d == edit_dist(a.take(i - 1), b.take(j - 1)) {
        Move::Keep
    } else if j > 0 && (i == 0 || d == edit_dist(a.take(i), b.take(j - 1)) + 1) {
        Move::Add
    } else {
        Move::Drop
    }
}

/// Where a script stood before its last move `mv` brought it to `(i, j)`.
spec fn back_from(i: int, j: int, mv: Move) -> (int, int) {
    match mv {
        Move::Keep => (i - 1, j - 1),
        Move::Add => (i, j - 1),
        Move::Drop => (i - 1, j),
    }
}

proof fn lemma_back(a: Seq<Tok>, b: Seq<Tok>, i: int, j: int)
    requires
        0 <= i <= a.len(),
        0 <= j <= b.len(),
        i > 0 || j > 0,
    ensures
        ({
            let mv = back_move(a, b, i, j);
            let (i2, j2) = back_from(i, j, mv);
            &&& 0 <= i2 && 0 <= j2
            &&& edit_dist(a.take(i), b.take(j)) == edit_dist(a.take(i2), b.take(j2)) + (if mv == Move::Keep { 0nat } else { 1nat })
            &&& forall|u1: Seq<Move>| #![trigger walk(u1, a, b)] walk(u1, a, b) == Some((i2, j2)) ==> walk(u1.push(mv), a, b) == Some((i, j))
        }),
{
    lemma_dist_step(a, b, i, j);
    let mv = back_move(a, b, i, j);
    let (i2, j2) = back_from(i, j, mv);
    assert forall|u1: Seq<Move>| #![trigger walk(u1, a, b)] walk(u1, a, b) == Some((i2, j2)) implies walk(u1.push(mv), a, b) == Some((i, j)) by {
        lemma_walk_push(u1, mv, a, b);
    }
}

proof fn lemma_step_front(st: Step, mv: Move, old_steps: Seq<Step>, r0: Seq<Move>)
    requires
        step_move(st) == mv,
        step_count(st) == 1,
        expand(old_steps) == r0,
    ensures
        expand(seq![st] + old_steps) == seq![mv] + r0,
        moves_cost(seq![mv] + r0) == moves_cost(r0) + (if mv == Move::Keep { 0nat } else { 1nat }),
{
    lemma_single_expand(st);
    assert(rep(mv, 1) =~= seq![mv]);
    lemma_expand_concat(seq![st], old_steps);
    lemma_moves_cost_concat(seq![mv], r0);
    assert(seq![mv].drop_last() =~= Seq::<Move>::empty());
    assert(seq![mv].last() == mv);
    assert(moves_cost(Seq::<Move>::empty()) == 0);
    assert(moves_cost(seq![mv]) == (if mv == Move::Keep { 0nat } else { 1nat }));
}

/// A shortest script from `a` to `b`, read back from the table of prefix distances (at a
/// choice, keeping an equal token first and inserting before deleting, read from the end).
fn dist_script(a: &[Tok], b: &[Tok]) -> (r: Vec<Step>)
    requires
        a@.len() <= DIFF_LIMIT,
        b@.len() <= DIFF_LIMIT,
    ensures
        script_ok(r@, a@, b@),
        merged(r@),
        changes(r@) == edit_dist(a@, b@),
{
    let t = dist_table(a, b);
    let n = a.len();
    let m = b.len();
    let mut i: usize = n;
    let mut j: usize = m;
    let mut steps: Vec<Step> = Vec::new();
    let ghost mut rest: Seq<Move> = seq![];
    proof {
        assert(expand(steps@) =~= rest);
        assert forall|u1: Seq<Move>| #![trigger walk(u1, a@, b@)] walk(u1, a@, b@) == Some((i as int, j as int))
            implies walk(u1 + rest, a@, b@) == Some((n as int, m as int)) by {
            assert(u1 + rest =~= u1);
        }
    }
    while i > 0 || j > 0
        invariant
            i <= n,
            j <= m,
            n == a@.len(),
            m == b@.len(),
            n <= DIFF_LIMIT,
            m <= DIFF_LIMIT,
            t@.len() == a@.len() + 1,
            forall|x: int| 0 <= x <= a@.len() ==> #[trigger] t@[x]@.len() == b@.len() + 1,
            forall|x: int, y: int| 0 <= x <= a@.len() && 0 <= y <= b@.len() ==> #[trigger] t@[x]@[y] == edit_dist(a@.take(x), b@.take(y)),
            expand(steps@) == rest,
            forall|k: int| 0 <= k < steps@.len() ==> step_count(#[trigger] steps@[k]) == 1,
            steps@.len() == rest.len(),
            rest.len() + i + j <= n + m,
            moves_cost(rest) + t@[i as int]@[j as int] == t@[n as int]@[m as int],
            forall|u1: Seq<Move>| #![trigger walk(u1, a@, b@)] walk(u1, a@, b@) == Some((i as int, j as int))
                ==> walk(u1 + rest, a@, b@) == Some((n as int, m as int)),
        decreases i + j,
    {
        proof {
            lemma_dist_step(a@, b@, i as int, j as int);
            lemma_back(a@, b@, i as int, j as int);
            if j > 0 {
                lemma_dist_bound(a@.take(i as int), b@.take(j - 1));
            }
        }
        let ghost i0 = i;
        let ghost j0 = j;
        let ghost r0 = rest;
        let keep = i > 0 && j > 0 && tok_eq(&a[i - 1], &b[j - 1]) && t[i][j] == t[i - 1][j - 1];
        let mv = if keep {
            Move::Keep
        } else if j > 0 && (i == 0 || t[i][j] == t[i][j - 1] + 1) {
            Move::Add
        } else {
            Move::Drop
        };
        assert(mv == back_move(a@, b@, i0 as int, j0 as int));
        let st = match mv {
            Move::Keep => Step::Equal(1),
            Move::Add => Step::Insert(1),
            Move::Drop => Step::Delete(1),
        };
        match mv {
            Move::Keep => {
                i = i - 1;
                j = j - 1;
            },
            Move::Add => {
                j = j - 1;
            },
            Move::Drop => {
                i = i - 1;
            },
        }
        assert((i as int, j as int) == back_from(i0 as int, j0 as int, mv));
        let ghost old_steps = steps@;
        steps.insert(0, st);
        proof {
            rest = seq![mv] + r0;
            lemma_step_front(st, mv, old_steps, r0);
            assert(steps@ =~= seq![st] + old_steps);
            assert forall|k: int| 0 <= k < steps@.len() implies step_count(#[trigger] steps@[k]) == 1 by {
                if k > 0 {
                    assert(steps@[k] == old_steps[k - 1]);
                }
            }
            assert forall|u1: Seq<Move>| #![trigger walk(u1, a@, b@)] walk(u1, a@, b@) == Some((i as int, j as int))
                implies walk(u1 + rest, a@, b@) == Some((n as int, m as int)) by {
                assert(walk(u1.push(mv), a@, b@) == Some((i0 as int, j0 as int)));
                assert(u1.push(mv) + r0 =~= u1 + rest);
            }
        }
    }
    proof {
        assert(walk(Seq::<Move>::empty(), a@, b@) == Some((0int, 0int)));
        assert(Seq::<Move>::empty() + rest =~= rest);
        lemma_expand_len(steps@);
        assert(a@.take(n as int) =~= a@);
        assert(b@.take(m as int) =~= b@);
        assert(t@[0]@[0] == 0) by {
            assert(a@.take(0).len() == 0);
        }
    }
    let out = Step::merge(steps);
    proof {
        lemma_changes_moves(out@);
    }
    out
}

proof fn lemma_changes_prefix(s: Seq<Step>, k: int)
    requires
        0 <= k <= s.len(),
    ensures
        changes(s.take(k)) <= changes(s),
    decreases s.len() - k,
{
    if k < s.len() {
        lemma_changes_prefix(s, k + 1);
        assert(s.take(k + 1).drop_last() =~= s.take(k));
    } else {
        assert(s.take(k) =~= s);
    }
}

/// How many tokens a script deletes or inserts; `None` when the sum does not fit.
fn changes_of(steps: &Vec<Step>) -> (r: Option<usize>)
    ensures
        r matches Some(c) ==> c == changes(steps@),
        changes(steps@) <= usize::MAX ==> r is Some,
{
    let mut sum: usize = 0;
    let ghost s = steps@;
    proof {
        assert(s.take(0) =~= Seq::<Step>::empty());
    }
    for k in 0..steps.len()
        invariant
            s == steps@,
            sum == changes(s.take(k as int)),
    {
        proof {
            assert(s.take(k + 1).drop_last() =~= s.take(k as int));
            assert(s.take(k + 1).last() == s[k as int]);
        }
        let c: usize = match steps[k] {
            Step::Equal(_) => 0,
            Step::Delete(c) | Step::Insert(c) => c,
        };
        if c > usize::MAX - sum {
            proof {
                lemma_changes_prefix(s, k + 1);
            }
            return None;
        }
        sum = sum + c;
    }
    proof {
        assert(s.take(s.len() as int) =~= s);
    }
    Some(sum)
}

/// The diff of two token lists.
pub struct InlineDiff<'a> {
    pub old: &'a [Tok<'a>],
    pub new: &'a [Tok<'a>],
}

impl<'a> InlineDiff<'a> {
    /// The edit script from `old` to `new`, with neighbouring steps of one kind merged; `None`
    /// when either side has more than [`DIFF_LIMIT`] tokens (the caller replaces the whole
    /// content then). The common prefix and suffix are kept; the middle is diffed with Myers'
    /// algorithm.
    /// A shortest script from `old` to `new` (computed from the table of prefix distances).
    fn shortest(old: &[Tok], new: &[Tok]) -> (r: Vec<Step>)
        requires
            old@.len() <= DIFF_LIMIT,
            new@.len() <= DIFF_LIMIT,
        ensures
            script_ok(r@, old@, new@),
            merged(r@),
            changes(r@) == edit_dist(old@, new@),
            forall|t: Seq<Step>| #[trigger] script_ok(t, old@, new@) ==> changes(r@) <= changes(t),
    {
        let r = dist_script(old, new);
        proof {
            assert forall|t: Seq<Step>| #[trigger] script_ok(t, old@, new@) implies changes(r@) <= changes(t) by {
                law_script_cost_at_least_edit_distance(t, old@, new@);
            }
        }
        r
    }

    pub fn steps(self) -> (r: Option<Vec<Step>>)
        ensures
            r is None <==> (self.old@.len() > DIFF_LIMIT || self.new@.len() > DIFF_LIMIT),
            r matches Some(s) ==> script_ok(s@, self.old@, self.new@) && merged(s@),
            r matches Some(s) ==> changes(s@) == edit_dist(self.old@, self.new@),
            r matches Some(s) ==> forall|t: Seq<Step>| #[trigger] script_ok(t, self.old@, self.new@) ==> changes(s@) <= changes(t),
            same_toks(self.old@, self.new@) && self.old@.len() <= DIFF_LIMIT ==> (r matches Some(s)
                && s@ == (if self.old@.len() == 0 { seq![] } else { seq![Step::Equal(self.old@.len() as usize)] })),
    {
        let old = self.old;
        let new = self.new;
        if old.len() > DIFF_LIMIT || new.len() > DIFF_LIMIT {
            return None;
        }
        let mut pre: usize = 0;
        while pre < old.len() && pre < new.len() && tok_eq(&old[pre], &new[pre])
            invariant
                pre <= old@.len(),
                pre <= new@.len(),
            decreases old@.len() - pre,
        {
            pre = pre + 1;
        }
        proof {
            if same_toks(old@, new@) && pre < old@.len() {
                assert(tok_same(old@[pre as int], new@[pre as int]));
            }
        }
        let ro = old.len() - pre;
        let rn = new.len() - pre;
        let mut suf: usize = 0;
        while suf < ro && suf < rn && tok_eq(&old[old.len() - 1 - suf], &new[new.len() - 1 - suf])
            invariant
                pre <= old@.len(),
                pre <= new@.len(),
                ro == old@.len() - pre,
                rn == new@.len() - pre,
                suf <= ro,
                suf <= rn,
            decreases ro - suf,
        {
            suf = suf + 1;
        }
        let mut steps: Vec<Step> = Vec::new();
        if pre > 0 {
            steps.push(Step::Equal(pre));
        }
        match myers(old, new, pre, old.len() - suf, pre, new.len() - suf) {
            Some(ms) => {
                let mut ms = ms;
                steps.append(&mut ms);
            },
            None => {
                return Some(Self::shortest(old, new));
            },
        }
        if suf > 0 {
            steps.push(Step::Equal(suf));
        }
        proof {
            if same_toks(old@, new@) {
                assert(pre == old@.len());
                assert(suf == 0);
                let n = old@.len();
                if pre > 0 {
                    assert(steps@ =~= seq![Step::Equal(pre)] + seq![Step::Insert(0)]);
                    lemma_expand_concat(seq![Step::Equal(pre)], seq![Step::Insert(0)]);
                    lemma_single_expand(Step::Equal(pre));
                    lemma_single_expand(Step::Insert(0));
                    assert(rep(Move::Add, 0) =~= Seq::<Move>::empty());
                    assert(expand(steps@) =~= rep(Move::Keep, n as nat));
                } else {
                    assert(steps@ =~= seq![Step::Insert(0)]);
                    lemma_single_expand(Step::Insert(0));
                    assert(expand(steps@) =~= rep(Move::Keep, 0));
                }
                lemma_walk_keeps(old@, new@, n as nat);
                lemma_expand_len(steps@);
                assert(total(steps@) == n);
            }
        }
        match script_total(&steps) {
            Some(_) => {
                let out = Step::merge(steps);
                proof {
                    if same_toks(old@, new@) {
                        lemma_only_keeps(out@, old@.len() as nat);
                    }
                }
                if check_script(&out, old, new) {
                    let best = Self::shortest(old, new);
                    proof {
                        lemma_dist_bound(old@, new@);
                        if same_toks(old@, new@) {
                            law_script_cost_at_least_edit_distance(out@, old@, new@);
                            if old@.len() == 0 {
                                assert(changes(out@) == 0);
                            } else {
                                assert(out@.drop_last() =~= Seq::<Step>::empty());
                                assert(changes(Seq::<Step>::empty()) == 0);
                                assert(out@.last() == Step::Equal(old@.len() as usize));
                                assert(changes(out@) == 0);
                            }
                        }
                    }
                    match (changes_of(&out), changes_of(&best)) {
                        (Some(c), Some(e)) => {
                            proof {
                                law_script_cost_at_least_edit_distance(out@, old@, new@);
                            }
                            if c == e {
                                proof {
                                    assert forall|t: Seq<Step>| #[trigger] script_ok(t, old@, new@) implies changes(out@) <= changes(t) by {
                                        law_script_cost_at_least_edit_distance(t, old@, new@);
                                    }
                                }
                                Some(out)
                            } else {
                                Some(best)
                            }
                        },
                        _ => Some(best),
                    }
                } else {
                    Some(Self::shortest(old, new))
                }
            },
            None => Some(Self::shortest(old, new)),
        }
    }
}

} // verus!

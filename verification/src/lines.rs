//! Splitting text into lines (`str::lines`) and joining them back.

use vstd::prelude::*;
use crate::text::string_of;

verus! {

/// Pieces of `s` between `\n` characters, from position `i`, `cur` being the
/// piece in progress; there is always a last piece (possibly empty).
pub open spec fn split_nl(s: Seq<char>, i: int, cur: Seq<char>) -> Seq<Seq<char>>
    decreases s.len() - i,
{
    if i >= s.len() {
        seq![cur]
    } else if s[i] == '\n' {
        seq![cur] + split_nl(s, i + 1, Seq::empty())
    } else {
        split_nl(s, i + 1, cur.push(s[i]))
    }
}

/// A line without its trailing `\r`.
pub open spec fn strip_cr(l: Seq<char>) -> Seq<char> {
    if l.len() > 0 && l.last() == '\r' {
        l.drop_last()
    } else {
        l
    }
}

/// The lines of a text, as `str::lines` gives them: split at `\n`, a
/// trailing `\r` removed from each, no line after a final `\n`.
pub open spec fn lines_spec(s: Seq<char>) -> Seq<Seq<char>> {
    let p = split_nl(s, 0, Seq::empty());
    let q = if p.last().len() == 0 {
        p.drop_last()
    } else {
        p
    };
    q.map_values(|l: Seq<char>| strip_cr(l))
}

/// The lines of a text.
pub fn lines_of(v: &Vec<char>) -> (r: Vec<Vec<char>>)
    ensures
        r@.map_values(|l: Vec<char>| l@) == lines_spec(v@),
{
    let mut pieces: Vec<Vec<char>> = Vec::new();
    let mut cur: Vec<char> = Vec::new();
    let mut i: usize = 0;
    while i < v.len()
        invariant
            i <= v@.len(),
            split_nl(v@, 0, Seq::empty()) == pieces@.map_values(|l: Vec<char>| l@) + split_nl(
                v@,
                i as int,
                cur@,
            ),
        decreases v.len() - i,
    {
        let ghost before = pieces@.map_values(|l: Vec<char>| l@);
        if v[i] == '\n' {
            let done = cur;
            let ghost d = done@;
            pieces.push(done);
            cur = Vec::new();
            assert(pieces@.map_values(|l: Vec<char>| l@) =~= before.push(d));
            assert(before + (seq![d] + split_nl(v@, i + 1, Seq::empty())) =~= before.push(d)
                + split_nl(v@, i + 1, Seq::empty()));
            assert(cur@ =~= Seq::<char>::empty());
        } else {
            cur.push(v[i]);
        }
        i = i + 1;
    }
    let ghost before = pieces@.map_values(|l: Vec<char>| l@);
    let ghost last = cur@;
    let keep_last = cur.len() > 0;
    pieces.push(cur);
    assert(pieces@.map_values(|l: Vec<char>| l@) =~= split_nl(v@, 0, Seq::empty()));
    if !keep_last {
        pieces.pop();
        assert(pieces@.map_values(|l: Vec<char>| l@) =~= split_nl(v@, 0, Seq::empty()).drop_last());
    }
    let ghost q = pieces@.map_values(|l: Vec<char>| l@);
    let mut out: Vec<Vec<char>> = Vec::new();
    let mut j: usize = 0;
    while j < pieces.len()
        invariant
            j <= pieces@.len(),
            q == pieces@.map_values(|l: Vec<char>| l@),
            out@.map_values(|l: Vec<char>| l@) == q.take(j as int).map_values(
                |l: Seq<char>| strip_cr(l),
            ),
        decreases pieces.len() - j,
    {
        let ghost before = out@.map_values(|l: Vec<char>| l@);
        let p = &pieces[j];
        let mut line: Vec<char> = Vec::new();
        let mut end = p.len();
        if end > 0 && p[end - 1] == '\r' {
            end = end - 1;
        }
        let mut k: usize = 0;
        while k < end
            invariant
                end <= p@.len(),
                k <= end,
                line@ == p@.take(k as int),
            decreases end - k,
        {
            line.push(p[k]);
            assert(p@.take(k + 1) == p@.take(k as int).push(p@[k as int]));
            k = k + 1;
        }
        proof {
            assert(line@ =~= strip_cr(p@));
            assert(q[j as int] == p@);
        }
        out.push(line);
        assert(out@.map_values(|l: Vec<char>| l@) =~= before.push(strip_cr(q[j as int])));
        assert(q.take(j + 1).map_values(|l: Seq<char>| strip_cr(l)) =~= q.take(j as int).map_values(
            |l: Seq<char>| strip_cr(l),
        ).push(strip_cr(q[j as int])));
        j = j + 1;
    }
    assert(q.take(pieces.len() as int) =~= q);
    out
}

/// Lines joined by `\n`.
pub open spec fn join_lines(ls: Seq<Seq<char>>) -> Seq<char>
    decreases ls.len(),
{
    if ls.len() == 0 {
        Seq::empty()
    } else if ls.len() == 1 {
        ls[0]
    } else {
        join_lines(ls.drop_last()) + seq!['\n'] + ls.last()
    }
}

/// Number of `\n` characters in a text.
pub open spec fn newlines_in(s: Seq<char>) -> nat
    decreases s.len(),
{
    if s.len() == 0 {
        0
    } else {
        newlines_in(s.drop_last()) + if s.last() == '\n' {
            1nat
        } else {
            0nat
        }
    }
}

/// A text without `\n`.
pub open spec fn no_newline(l: Seq<char>) -> bool {
    forall|k: int| 0 <= k < l.len() ==> l[k] != '\n'
}

proof fn lemma_newlines_concat(a: Seq<char>, b: Seq<char>)
    ensures
        newlines_in(a + b) == newlines_in(a) + newlines_in(b),
    decreases b.len(),
{
    if b.len() > 0 {
        assert((a + b).drop_last() =~= a + b.drop_last());
        lemma_newlines_concat(a, b.drop_last());
    } else {
        assert(a + b =~= a);
    }
}

proof fn lemma_no_newline_count(l: Seq<char>)
    requires
        no_newline(l),
    ensures
        newlines_in(l) == 0,
    decreases l.len(),
{
    if l.len() > 0 {
        assert(no_newline(l.drop_last())) by {
            assert forall|k: int| 0 <= k < l.drop_last().len() implies l.drop_last()[k] != '\n' by {
                assert(l.drop_last()[k] == l[k]);
            }
        }
        lemma_no_newline_count(l.drop_last());
        assert(l.last() == l[l.len() - 1]);
    }
}

proof fn lemma_single_newlines(c: char)
    ensures
        newlines_in(seq![c]) == if c == '\n' {
            1nat
        } else {
            0nat
        },
{
    let t = seq![c];
    assert(t.drop_last() =~= Seq::<char>::empty());
    assert(t.last() == c);
    assert(newlines_in(Seq::<char>::empty()) == 0);
}

/// The pieces from position `i` number one more than the newlines left.
proof fn lemma_split_len(s: Seq<char>, i: int, cur: Seq<char>)
    requires
        0 <= i <= s.len(),
    ensures
        split_nl(s, i, cur).len() == newlines_in(s.skip(i)) + 1,
    decreases s.len() - i,
{
    if i >= s.len() {
        assert(s.skip(i) =~= Seq::<char>::empty());
    } else {
        assert(s.skip(i) =~= seq![s[i]] + s.skip(i + 1));
        lemma_newlines_concat(seq![s[i]], s.skip(i + 1));
        lemma_single_newlines(s[i]);
        if s[i] == '\n' {
            lemma_split_len(s, i + 1, Seq::empty());
        } else {
            lemma_split_len(s, i + 1, cur.push(s[i]));
        }
    }
}

/// No piece holds a `\n`.
proof fn lemma_split_pieces(s: Seq<char>, i: int, cur: Seq<char>)
    requires
        0 <= i <= s.len(),
        no_newline(cur),
    ensures
        forall|j: int| 0 <= j < split_nl(s, i, cur).len() ==> no_newline(#[trigger] split_nl(s, i, cur)[j]),
    decreases s.len() - i,
{
    if i >= s.len() {
        assert(split_nl(s, i, cur) =~= seq![cur]);
    } else {
        if s[i] == '\n' {
            lemma_split_pieces(s, i + 1, Seq::empty());
            let rest = split_nl(s, i + 1, Seq::empty());
            assert forall|j: int| 0 <= j < split_nl(s, i, cur).len() implies no_newline(
                #[trigger] split_nl(s, i, cur)[j],
            ) by {
                if j > 0 {
                    assert(split_nl(s, i, cur)[j] == rest[j - 1]);
                }
            }
        } else {
            assert(no_newline(cur.push(s[i]))) by {
                assert forall|k: int| 0 <= k < cur.push(s[i]).len() implies cur.push(s[i])[k] != '\n' by {
                    if k < cur.len() {
                        assert(cur.push(s[i])[k] == cur[k]);
                    }
                }
            }
            lemma_split_pieces(s, i + 1, cur.push(s[i]));
            assert(split_nl(s, i, cur) == split_nl(s, i + 1, cur.push(s[i])));
        }
    }
}

/// Lines never hold a `\n`.
pub proof fn lemma_lines_no_newline(s: Seq<char>)
    ensures
        forall|j: int| 0 <= j < lines_spec(s).len() ==> no_newline(#[trigger] lines_spec(s)[j]),
{
    assert(no_newline(Seq::<char>::empty()));
    lemma_split_pieces(s, 0, Seq::empty());
    lemma_split_len(s, 0, Seq::empty());
    let p = split_nl(s, 0, Seq::empty());
    assert(p.len() >= 1);
    let q = if p.last().len() == 0 {
        p.drop_last()
    } else {
        p
    };
    assert forall|j: int| 0 <= j < lines_spec(s).len() implies no_newline(#[trigger] lines_spec(s)[j]) by {
        assert(lines_spec(s).len() == q.len());
        assert(q[j] == p[j]);
        assert(no_newline(p[j]));
        let l = q[j];
        assert(lines_spec(s)[j] == strip_cr(l));
        if l.len() > 0 && l.last() == '\r' {
            assert forall|k: int| 0 <= k < l.drop_last().len() implies l.drop_last()[k] != '\n' by {
                assert(l.drop_last()[k] == l[k]);
            }
        }
    }
}

/// Joined lines hold one `\n` fewer than there are lines.
proof fn lemma_join_newlines(ls: Seq<Seq<char>>)
    requires
        forall|j: int| 0 <= j < ls.len() ==> no_newline(#[trigger] ls[j]),
    ensures
        ls.len() > 0 ==> newlines_in(join_lines(ls)) == ls.len() - 1,
    decreases ls.len(),
{
    if ls.len() == 1 {
        lemma_no_newline_count(ls[0]);
    } else if ls.len() > 1 {
        assert forall|j: int| 0 <= j < ls.drop_last().len() implies no_newline(#[trigger] ls.drop_last()[j]) by {
            assert(ls.drop_last()[j] == ls[j]);
        }
        lemma_join_newlines(ls.drop_last());
        let a = join_lines(ls.drop_last());
        lemma_newlines_concat(a, seq!['\n']);
        lemma_newlines_concat(a + seq!['\n'], ls.last());
        lemma_single_newlines('\n');
        assert(ls.last() == ls[ls.len() - 1]);
        lemma_no_newline_count(ls.last());
    }
}

/// Splitting lines that were joined gives at most as many lines.
pub proof fn lemma_lines_of_join(ls: Seq<Seq<char>>)
    requires
        forall|j: int| 0 <= j < ls.len() ==> no_newline(#[trigger] ls[j]),
    ensures
        lines_spec(join_lines(ls)).len() <= ls.len(),
{
    let t = join_lines(ls);
    lemma_split_len(t, 0, Seq::empty());
    assert(t.skip(0) =~= t);
    if ls.len() == 0 {
        assert(split_nl(t, 0, Seq::empty()) =~= seq![Seq::<char>::empty()]);
    } else {
        lemma_join_newlines(ls);
    }
}

proof fn lemma_split_shift(a: Seq<char>, b: Seq<char>, j: int, cur: Seq<char>)
    requires
        0 <= j <= b.len(),
    ensures
        split_nl(a + b, a.len() + j, cur) == split_nl(b, j, cur),
    decreases b.len() - j,
{
    if j < b.len() {
        assert((a + b)[a.len() + j] == b[j]);
        if b[j] == '\n' {
            lemma_split_shift(a, b, j + 1, Seq::empty());
        } else {
            lemma_split_shift(a, b, j + 1, cur.push(b[j]));
        }
    }
}

/// The piece in progress only prefixes the first piece.
proof fn lemma_split_cur(b: Seq<char>, j: int, cur: Seq<char>)
    requires
        0 <= j <= b.len(),
    ensures
        split_nl(b, j, Seq::empty()).len() >= 1,
        split_nl(b, j, cur) == seq![cur + split_nl(b, j, Seq::empty())[0]] + split_nl(
            b,
            j,
            Seq::empty(),
        ).drop_first(),
    decreases b.len() - j,
{
    let e = Seq::<char>::empty();
    if j >= b.len() {
        assert(cur + e =~= cur);
        assert(split_nl(b, j, cur) =~= seq![cur + split_nl(b, j, e)[0]] + split_nl(b, j, e).drop_first());
    } else if b[j] == '\n' {
        let rest = split_nl(b, j + 1, e);
        assert(split_nl(b, j, e) == seq![e] + rest);
        assert(cur + e =~= cur);
        assert(split_nl(b, j, e).drop_first() =~= rest);
        assert(split_nl(b, j, cur) =~= seq![cur + split_nl(b, j, e)[0]] + split_nl(b, j, e).drop_first());
    } else {
        let c = b[j];
        lemma_split_cur(b, j + 1, cur.push(c));
        lemma_split_cur(b, j + 1, seq![c]);
        lemma_split_cur(b, j + 1, e);
        let x = split_nl(b, j + 1, e);
        assert(e.push(c) =~= seq![c]);
        assert(cur.push(c) + x[0] =~= cur + (seq![c] + x[0]));
        assert(split_nl(b, j, e) == split_nl(b, j + 1, seq![c]));
        assert(split_nl(b, j, e)[0] == seq![c] + x[0]);
        assert(split_nl(b, j, e).drop_first() =~= x.drop_first());
        assert(split_nl(b, j, cur) =~= seq![cur + split_nl(b, j, e)[0]] + split_nl(b, j, e).drop_first());
    }
}

/// Pieces of a concatenation: those of the first text, its last one joined
/// to the first of the second text, then the rest of the second's.
proof fn lemma_split_concat(a: Seq<char>, b: Seq<char>, i: int, cur: Seq<char>)
    requires
        0 <= i <= a.len(),
    ensures
        split_nl(a, i, cur).len() >= 1,
        split_nl(b, 0, Seq::empty()).len() >= 1,
        split_nl(a + b, i, cur) == split_nl(a, i, cur).drop_last() + seq![
            split_nl(a, i, cur).last() + split_nl(b, 0, Seq::empty())[0],
        ] + split_nl(b, 0, Seq::empty()).drop_first(),
    decreases a.len() - i,
{
    let e = Seq::<char>::empty();
    let q = split_nl(b, 0, e);
    lemma_split_cur(b, 0, cur);
    lemma_split_len(a, i, cur);
    if i >= a.len() {
        lemma_split_shift(a, b, 0, cur);
        assert(split_nl(a, i, cur) == seq![cur]);
        assert(seq![cur].drop_last() =~= Seq::<Seq<char>>::empty());
        assert(split_nl(a + b, i, cur) =~= split_nl(a, i, cur).drop_last() + seq![
            split_nl(a, i, cur).last() + q[0],
        ] + q.drop_first());
    } else {
        assert((a + b)[i] == a[i]);
        if a[i] == '\n' {
            lemma_split_concat(a, b, i + 1, e);
            let p1 = split_nl(a, i + 1, e);
            assert(split_nl(a, i, cur) == seq![cur] + p1);
            assert((seq![cur] + p1).drop_last() =~= seq![cur] + p1.drop_last());
            assert((seq![cur] + p1).last() == p1.last());
            assert(split_nl(a + b, i, cur) =~= split_nl(a, i, cur).drop_last() + seq![
                split_nl(a, i, cur).last() + q[0],
            ] + q.drop_first());
        } else {
            lemma_split_concat(a, b, i + 1, cur.push(a[i]));
        }
    }
}

proof fn lemma_map_concat(x: Seq<Seq<char>>, y: Seq<Seq<char>>)
    ensures
        (x + y).map_values(|l: Seq<char>| strip_cr(l)) == x.map_values(|l: Seq<char>| strip_cr(l))
            + y.map_values(|l: Seq<char>| strip_cr(l)),
{
    assert((x + y).map_values(|l: Seq<char>| strip_cr(l)) =~= x.map_values(|l: Seq<char>| strip_cr(l))
        + y.map_values(|l: Seq<char>| strip_cr(l)));
}

/// When the second text holds at least `n + 1` newlines, the lines of the
/// concatenation end with the same `n + 1`-or-more lines as the second text's,
/// of which it drops only the first: both are some lines followed by `d`,
/// with `d` holding at least `n` lines.
pub proof fn lemma_lines_concat(a: Seq<char>, b: Seq<char>, n: nat)
    requires
        newlines_in(b) > n,
    ensures
        exists|x: Seq<Seq<char>>, y: Seq<Seq<char>>, d: Seq<Seq<char>>|
            #![trigger x + d, y + d]
            lines_spec(a + b) == x + d && lines_spec(b) == y + d && x.len() >= 1 && y.len() >= 1
                && d.len() >= n,
{
    let e = Seq::<char>::empty();
    lemma_split_concat(a, b, 0, e);
    lemma_split_len(b, 0, e);
    assert(b.skip(0) =~= b);
    let p = split_nl(a, 0, e);
    let q = split_nl(b, 0, e);
    let t = split_nl(a + b, 0, e);
    let aa = p.drop_last() + seq![p.last() + q[0]];
    assert(q.len() >= 2);
    assert(t =~= aa + q.drop_first());
    let dd = if q.last().len() == 0 {
        q.drop_first().drop_last()
    } else {
        q.drop_first()
    };
    assert(t.last() == q.last());
    let qt = if t.last().len() == 0 {
        t.drop_last()
    } else {
        t
    };
    let qb = if q.last().len() == 0 {
        q.drop_last()
    } else {
        q
    };
    assert(qt =~= aa + dd);
    assert(qb =~= seq![q[0]] + dd);
    lemma_map_concat(aa, dd);
    lemma_map_concat(seq![q[0]], dd);
    let f = |l: Seq<char>| strip_cr(l);
    let x = aa.map_values(f);
    let y = seq![q[0]].map_values(f);
    let d = dd.map_values(f);
    assert(lines_spec(a + b) == x + d);
    assert(lines_spec(b) == y + d);
}

/// Lines `from..` joined by `\n`.
pub fn join_from(ls: &Vec<Vec<char>>, from: usize) -> (r: String)
    requires
        from <= ls@.len(),
    ensures
        r@ == join_lines(ls@.map_values(|l: Vec<char>| l@).skip(from as int)),
{
    let ghost all = ls@.map_values(|l: Vec<char>| l@).skip(from as int);
    let mut out: Vec<char> = Vec::new();
    let mut i = from;
    while i < ls.len()
        invariant
            from <= i <= ls@.len(),
            all == ls@.map_values(|l: Vec<char>| l@).skip(from as int),
            out@ == join_lines(all.take(i - from)),
        decreases ls.len() - i,
    {
        let ghost before = out@;
        assert(all.take(i - from + 1).drop_last() =~= all.take(i - from));
        assert(all[i - from] == ls@[i as int]@);
        if i > from {
            out.push('\n');
        }
        let l = &ls[i];
        let mut k: usize = 0;
        let ghost mid = out@;
        while k < l.len()
            invariant
                k <= l@.len(),
                out@ == mid + l@.take(k as int),
            decreases l.len() - k,
        {
            out.push(l[k]);
            assert(l@.take(k + 1) == l@.take(k as int).push(l@[k as int]));
            k = k + 1;
        }
        assert(l@.take(l.len() as int) =~= l@);
        proof {
            if i > from {
                assert(out@ =~= before + seq!['\n'] + l@);
            } else {
                assert(all.take(1) =~= seq![l@]);
                assert(out@ =~= l@);
            }
        }
        i = i + 1;
    }
    assert(all.take(ls.len() - from) =~= all);
    string_of(&out)
}

} // verus!

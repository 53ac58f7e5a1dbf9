//! Splitting byte text at a separator and into lines, with the meaning that
//! `str::split` and `str::lines` (or `BufRead::lines`) give it, and the
//! rewrite of a text without its last line.

use vstd::prelude::*;

verus! {

/// The line feed byte.
pub const LF: u8 = 10;

/// The carriage return byte.
pub const CR: u8 = 13;

/// The contents of a list of byte vectors.
pub open spec fn views(v: Seq<Vec<u8>>) -> Seq<Seq<u8>> {
    v.map_values(|x: Vec<u8>| x@)
}

/// The pieces of `s` between occurrences of `sep`, as `split(sep)` yields
/// them: there is always at least one piece, and a separator at either end
/// gives an empty piece there.
pub open spec fn split_on(s: Seq<u8>, sep: u8) -> Seq<Seq<u8>>
    decreases s.len(),
{
    if s.len() == 0 {
        seq![Seq::<u8>::empty()]
    } else {
        let p = split_on(s.drop_last(), sep);
        if s.last() == sep {
            p.push(Seq::<u8>::empty())
        } else {
            p.update(p.len() - 1, p.last().push(s.last()))
        }
    }
}

/// A line with one trailing carriage return removed, if it has one.
pub open spec fn strip_cr(l: Seq<u8>) -> Seq<u8> {
    if l.len() > 0 && l.last() == CR {
        l.drop_last()
    } else {
        l
    }
}

/// The lines of `s` as `lines()` yields them: the pieces between line
/// feeds, each one that a line feed ends without a trailing carriage
/// return, and without the empty piece after a final line feed.
pub open spec fn lines(s: Seq<u8>) -> Seq<Seq<u8>> {
    let p = split_on(s, LF);
    let ended = p.drop_last().map_values(|l: Seq<u8>| strip_cr(l));
    if p.last().len() == 0 {
        ended
    } else {
        ended.push(p.last())
    }
}

/// The lines `ls`, each followed by a line feed.
pub open spec fn join_lines(ls: Seq<Seq<u8>>) -> Seq<u8>
    decreases ls.len(),
{
    if ls.len() == 0 {
        Seq::<u8>::empty()
    } else {
        join_lines(ls.drop_last()) + ls.last() + seq![LF]
    }
}

/// The text `s` written back without its last line: every other line,
/// each followed by a line feed.
pub open spec fn without_last_line(s: Seq<u8>) -> Seq<u8> {
    let ls = lines(s);
    if ls.len() == 0 {
        Seq::<u8>::empty()
    } else {
        join_lines(ls.drop_last())
    }
}

/// `b` does not occur in `s`.
pub open spec fn lacks(s: Seq<u8>, b: u8) -> bool {
    forall|i: int| 0 <= i < s.len() ==> #[trigger] s[i] != b
}

/// A line that a line feed can end and that reads back unchanged: it holds
/// no line feed and does not end in a carriage return.
pub open spec fn plain_line(l: Seq<u8>) -> bool {
    lacks(l, LF) && !(l.len() > 0 && l.last() == CR)
}

/// Splits `s` at every `sep`, as `split(sep)` does.
pub fn split(s: &[u8], sep: u8) -> (r: Vec<Vec<u8>>)
    ensures
        views(r@) == split_on(s@, sep),
{
    let n = s.len();
    let mut pieces: Vec<Vec<u8>> = Vec::new();
    let mut cur: Vec<u8> = Vec::new();
    let mut i: usize = 0;
    assert(s@.subrange(0, 0) =~= Seq::<u8>::empty());
    assert(views(pieces@).push(cur@) =~= split_on(s@.subrange(0, 0), sep));
    while i < n
        invariant
            i <= n,
            n == s@.len(),
            views(pieces@).push(cur@) == split_on(s@.subrange(0, i as int), sep),
        decreases n - i,
    {
        let b = s[i];
        let ghost before = views(pieces@).push(cur@);
        assert(s@.subrange(0, i + 1).drop_last() =~= s@.subrange(0, i as int));
        if b == sep {
            let mut done: Vec<u8> = Vec::new();
            std::mem::swap(&mut cur, &mut done);
            pieces.push(done);
            assert(views(pieces@).push(cur@) =~= before.push(Seq::<u8>::empty()));
        } else {
            cur.push(b);
            assert(views(pieces@).push(cur@) =~= before.update(
                before.len() - 1,
                before.last().push(b),
            ));
        }
        i = i + 1;
    }
    assert(s@.subrange(0, n as int) =~= s@);
    pieces.push(cur);
    assert(views(pieces@) =~= split_on(s@, sep));
    pieces
}

/// Splits `s` into lines, as `lines()` does.
pub fn split_lines(s: &[u8]) -> (r: Vec<Vec<u8>>)
    ensures
        views(r@) == lines(s@),
{
    let n = s.len();
    let mut done: Vec<Vec<u8>> = Vec::new();
    let mut cur: Vec<u8> = Vec::new();
    let mut i: usize = 0;
    assert(s@.subrange(0, 0) =~= Seq::<u8>::empty());
    assert(views(done@) =~= split_on(s@.subrange(0, 0), LF).drop_last().map_values(
        |l: Seq<u8>| strip_cr(l),
    ));
    while i < n
        invariant
            i <= n,
            n == s@.len(),
            split_on(s@.subrange(0, i as int), LF).len() >= 1,
            views(done@) == split_on(s@.subrange(0, i as int), LF).drop_last().map_values(
                |l: Seq<u8>| strip_cr(l),
            ),
            cur@ == split_on(s@.subrange(0, i as int), LF).last(),
        decreases n - i,
    {
        let b = s[i];
        let ghost p = split_on(s@.subrange(0, i as int), LF);
        assert(s@.subrange(0, i + 1).drop_last() =~= s@.subrange(0, i as int));
        let ghost q = split_on(s@.subrange(0, i + 1), LF);
        if b == LF {
            let mut line: Vec<u8> = Vec::new();
            std::mem::swap(&mut cur, &mut line);
            let len = line.len();
            if len > 0 && line[len - 1] == CR {
                line.pop();
            }
            assert(line@ == strip_cr(p.last()));
            let ghost old_done = views(done@);
            done.push(line);
            assert(views(done@) =~= old_done.push(strip_cr(p.last())));
            assert(p.map_values(|l: Seq<u8>| strip_cr(l)) =~= p.drop_last().map_values(
                |l: Seq<u8>| strip_cr(l),
            ).push(strip_cr(p.last())));
            assert(q == p.push(Seq::<u8>::empty()));
            assert(q.drop_last() =~= p);
            assert(views(done@) =~= q.drop_last().map_values(|l: Seq<u8>| strip_cr(l)));
        } else {
            cur.push(b);
            assert(q == p.update(p.len() - 1, p.last().push(b)));
            assert(q.drop_last() =~= p.drop_last());
        }
        i = i + 1;
    }
    assert(s@.subrange(0, n as int) =~= s@);
    if cur.len() > 0 {
        done.push(cur);
    }
    assert(views(done@) =~= lines(s@));
    done
}

/// Writes the lines of `s` back, each followed by a line feed, all but the
/// last; this is what is left of a file after its last line is removed.
pub fn drop_last_line(s: &[u8]) -> (r: Vec<u8>)
    ensures
        r@ == without_last_line(s@),
{
    let ls = split_lines(s);
    let count = ls.len();
    let mut out: Vec<u8> = Vec::new();
    if count == 0 {
        return out;
    }
    let ghost all = views(ls@);
    let mut k: usize = 0;
    assert(all.subrange(0, 0) =~= Seq::<Seq<u8>>::empty());
    while k + 1 < count
        invariant
            count == ls@.len(),
            count >= 1,
            k + 1 <= count,
            all == views(ls@),
            out@ == join_lines(all.subrange(0, k as int)),
        decreases count - k,
    {
        out.extend_from_slice(ls[k].as_slice());
        out.push(LF);
        assert(all.subrange(0, k + 1).drop_last() =~= all.subrange(0, k as int));
        assert(out@ =~= join_lines(all.subrange(0, k + 1)));
        k = k + 1;
    }
    assert(all.subrange(0, k as int) =~= all.drop_last());
    out
}

/// Splitting gives at least one piece, and no piece holds the separator.
pub proof fn lemma_split_pieces(s: Seq<u8>, sep: u8)
    ensures
        split_on(s, sep).len() >= 1,
        forall|k: int| 0 <= k < split_on(s, sep).len() ==> lacks(#[trigger] split_on(s, sep)[k], sep),
    decreases s.len(),
{
    if s.len() > 0 {
        lemma_split_pieces(s.drop_last(), sep);
        let p = split_on(s.drop_last(), sep);
        let q = split_on(s, sep);
        if s.last() != sep {
            assert forall|k: int| 0 <= k < q.len() implies lacks(#[trigger] q[k], sep) by {
                if k == q.len() - 1 {
                    let l = p.last().push(s.last());
                    assert(lacks(p[p.len() - 1], sep));
                    assert forall|i: int| 0 <= i < l.len() implies #[trigger] l[i] != sep by {
                        if i < l.len() - 1 {
                            assert(l[i] == p.last()[i]);
                        }
                    }
                } else {
                    assert(q[k] == p[k]);
                }
            }
        } else {
            assert forall|k: int| 0 <= k < q.len() implies lacks(#[trigger] q[k], sep) by {
                if k < p.len() {
                    assert(q[k] == p[k]);
                }
            }
        }
    }
}

/// Text without the separator is one piece.
pub proof fn lemma_split_single(l: Seq<u8>, sep: u8)
    requires
        lacks(l, sep),
    ensures
        split_on(l, sep) == seq![l],
    decreases l.len(),
{
    if l.len() > 0 {
        let d = l.drop_last();
        assert(lacks(d, sep)) by {
            assert forall|i: int| 0 <= i < d.len() implies #[trigger] d[i] != sep by {
                assert(d[i] == l[i]);
            }
        }
        lemma_split_single(d, sep);
        assert(l.last() != sep);
        assert(d.push(l.last()) =~= l);
        assert(seq![d].update(0, d.push(l.last())) =~= seq![l]);
    } else {
        assert(l =~= Seq::<u8>::empty());
    }
}

/// A separator between two texts separates their pieces.
pub proof fn lemma_split_concat(x: Seq<u8>, y: Seq<u8>, sep: u8)
    ensures
        split_on(x + seq![sep] + y, sep) == split_on(x, sep) + split_on(y, sep),
    decreases y.len(),
{
    lemma_split_pieces(x, sep);
    lemma_split_pieces(y, sep);
    let xs = x + seq![sep];
    if y.len() == 0 {
        assert(xs + y =~= xs);
        assert(xs.drop_last() =~= x);
        assert(split_on(y, sep) =~= seq![Seq::<u8>::empty()]);
        assert(split_on(x, sep).push(Seq::<u8>::empty()) =~= split_on(x, sep) + split_on(y, sep));
    } else {
        let y0 = y.drop_last();
        lemma_split_concat(x, y0, sep);
        lemma_split_pieces(y0, sep);
        let whole = xs + y;
        assert(whole.drop_last() =~= xs + y0);
        assert(whole.last() == y.last());
        let a = split_on(x, sep);
        let b = split_on(y0, sep);
        if y.last() == sep {
            assert((a + b).push(Seq::<u8>::empty()) =~= a + b.push(Seq::<u8>::empty()));
        } else {
            assert((a + b).update((a + b).len() - 1, (a + b).last().push(y.last())) =~= a + b.update(
                b.len() - 1,
                b.last().push(y.last()),
            ));
        }
    }
}

/// Lines that hold no line feed, written each with a line feed after it,
/// split back into those lines, followed by the pieces of what comes after.
proof fn lemma_split_joined(ls: Seq<Seq<u8>>, t: Seq<u8>)
    requires
        forall|k: int| 0 <= k < ls.len() ==> lacks(#[trigger] ls[k], LF),
    ensures
        split_on(join_lines(ls) + t, LF) == ls + split_on(t, LF),
    decreases ls.len(),
{
    if ls.len() == 0 {
        assert(join_lines(ls) + t =~= t);
        assert(ls + split_on(t, LF) =~= split_on(t, LF));
    } else {
        let front = ls.drop_last();
        let l = ls.last();
        assert(lacks(ls[ls.len() - 1], LF));
        let rest = l + seq![LF] + t;
        assert(join_lines(ls) + t =~= join_lines(front) + rest);
        lemma_split_joined(front, rest);
        lemma_split_concat(l, t, LF);
        lemma_split_single(l, LF);
        assert(front + (seq![l] + split_on(t, LF)) =~= ls + split_on(t, LF));
    }
}

/// Plain lines written each with a line feed after it read back as the
/// same lines.
pub proof fn lemma_lines_of_joined(ls: Seq<Seq<u8>>)
    requires
        forall|k: int| 0 <= k < ls.len() ==> plain_line(#[trigger] ls[k]),
    ensures
        lines(join_lines(ls)) == ls,
{
    assert forall|k: int| 0 <= k < ls.len() implies lacks(#[trigger] ls[k], LF) by {
        assert(plain_line(ls[k]));
    }
    lemma_split_joined(ls, Seq::<u8>::empty());
    assert(join_lines(ls) + Seq::<u8>::empty() =~= join_lines(ls));
    let p = split_on(join_lines(ls), LF);
    assert(split_on(Seq::<u8>::empty(), LF) =~= seq![Seq::<u8>::empty()]);
    assert(p =~= ls.push(Seq::<u8>::empty()));
    assert(p.drop_last() =~= ls);
    assert(ls.map_values(|l: Seq<u8>| strip_cr(l)) =~= ls) by {
        assert forall|k: int| 0 <= k < ls.len() implies strip_cr(ls[k]) == ls[k] by {
            assert(plain_line(ls[k]));
        }
    }
}

/// No line holds a line feed.
pub proof fn lemma_lines_lack_lf(s: Seq<u8>)
    ensures
        forall|k: int| 0 <= k < lines(s).len() ==> lacks(#[trigger] lines(s)[k], LF),
{
    lemma_split_pieces(s, LF);
    let p = split_on(s, LF);
    let ls = lines(s);
    assert forall|k: int| 0 <= k < ls.len() implies lacks(#[trigger] ls[k], LF) by {
        assert(lacks(p[k], LF));
        if k < p.len() - 1 {
            let l = p[k];
            let m = strip_cr(l);
            assert(ls[k] == m);
            assert forall|i: int| 0 <= i < m.len() implies #[trigger] m[i] != LF by {
                assert(m[i] == l[i]);
            }
        } else {
            assert(ls[k] == p[k]);
        }
    }
}

/// Removing the last line and reading the result again gives the lines
/// before it, provided none of those ends in a carriage return.
pub proof fn lemma_lines_without_last(s: Seq<u8>)
    requires
        lines(s).len() > 0,
        forall|k: int|
            0 <= k < lines(s).len() - 1 ==> !(#[trigger] lines(s)[k].len() > 0 && lines(s)[k].last() == CR),
    ensures
        lines(without_last_line(s)) == lines(s).drop_last(),
{
    lemma_lines_lack_lf(s);
    let ls = lines(s);
    let kept = ls.drop_last();
    assert forall|k: int| 0 <= k < kept.len() implies plain_line(#[trigger] kept[k]) by {
        assert(kept[k] == ls[k]);
        assert(lacks(ls[k], LF));
        assert(!(ls[k].len() > 0 && ls[k].last() == CR));
    }
    lemma_lines_of_joined(kept);
}

/// The pieces `p` put back together with `sep` between each two.
pub open spec fn join_with(p: Seq<Seq<u8>>, sep: u8) -> Seq<u8>
    decreases p.len(),
{
    if p.len() == 0 {
        Seq::<u8>::empty()
    } else if p.len() == 1 {
        p[0]
    } else {
        join_with(p.drop_last(), sep) + seq![sep] + p.last()
    }
}

/// Splitting loses nothing: the pieces put back together with the
/// separator between them give the text again.
pub proof fn lemma_split_rejoin(s: Seq<u8>, sep: u8)
    ensures
        join_with(split_on(s, sep), sep) == s,
    decreases s.len(),
{
    if s.len() == 0 {
        assert(split_on(s, sep) =~= seq![Seq::<u8>::empty()]);
        assert(s =~= Seq::<u8>::empty());
    } else {
        let d = s.drop_last();
        lemma_split_rejoin(d, sep);
        lemma_split_pieces(d, sep);
        let p = split_on(d, sep);
        let q = split_on(s, sep);
        if s.last() == sep {
            assert(q.drop_last() =~= p);
            assert(join_with(q, sep) =~= d + seq![sep] + Seq::<u8>::empty());
            assert(s =~= d + seq![sep]);
        } else {
            let x = p.last().push(s.last());
            if p.len() == 1 {
                assert(join_with(q, sep) == x);
                assert(s =~= d.push(s.last()));
            } else {
                assert(q.drop_last() =~= p.drop_last());
                assert(join_with(q, sep) =~= join_with(p.drop_last(), sep) + seq![sep] + x);
                assert(join_with(p, sep) == join_with(p.drop_last(), sep) + seq![sep] + p.last());
                assert(s =~= d.push(s.last()));
            }
        }
    }
}

/// The lines `ls`, each followed by a carriage return and a line feed.
pub open spec fn join_crlf_lines(ls: Seq<Seq<u8>>) -> Seq<u8>
    decreases ls.len(),
{
    if ls.len() == 0 {
        Seq::<u8>::empty()
    } else {
        join_crlf_lines(ls.drop_last()) + ls.last() + seq![CR, LF]
    }
}

/// Lines ended by a carriage return and line feed are the lines with a
/// carriage return at their end, ended by a line feed.
proof fn lemma_crlf_as_lf(ls: Seq<Seq<u8>>)
    ensures
        join_crlf_lines(ls) == join_lines(ls.map_values(|l: Seq<u8>| l.push(CR))),
    decreases ls.len(),
{
    let m = ls.map_values(|l: Seq<u8>| l.push(CR));
    if ls.len() > 0 {
        lemma_crlf_as_lf(ls.drop_last());
        assert(m.drop_last() =~= ls.drop_last().map_values(|l: Seq<u8>| l.push(CR)));
        assert(join_crlf_lines(ls) =~= join_lines(m));
    } else {
        assert(m =~= Seq::<Seq<u8>>::empty());
    }
}

/// Plain lines ended by a carriage return and a line feed each read back
/// as the same lines: the carriage return belongs to the line ending.
pub proof fn lemma_lines_of_crlf_joined(ls: Seq<Seq<u8>>)
    requires
        forall|k: int| 0 <= k < ls.len() ==> plain_line(#[trigger] ls[k]),
    ensures
        lines(join_crlf_lines(ls)) == ls,
{
    let m = ls.map_values(|l: Seq<u8>| l.push(CR));
    lemma_crlf_as_lf(ls);
    assert forall|k: int| 0 <= k < m.len() implies lacks(#[trigger] m[k], LF) by {
        assert(plain_line(ls[k]));
        assert(m[k] == ls[k].push(CR));
        assert forall|i: int| 0 <= i < m[k].len() implies #[trigger] m[k][i] != LF by {
            if i < ls[k].len() {
                assert(m[k][i] == ls[k][i]);
            }
        }
    }
    lemma_split_joined(m, Seq::<u8>::empty());
    assert(join_lines(m) + Seq::<u8>::empty() =~= join_lines(m));
    let p = split_on(join_lines(m), LF);
    assert(split_on(Seq::<u8>::empty(), LF) =~= seq![Seq::<u8>::empty()]);
    assert(p =~= m.push(Seq::<u8>::empty()));
    assert(p.drop_last() =~= m);
    assert(m.map_values(|l: Seq<u8>| strip_cr(l)) =~= ls) by {
        assert forall|k: int| 0 <= k < ls.len() implies strip_cr(m[k]) == ls[k] by {
            assert(m[k].drop_last() =~= ls[k]);
        }
    }
}

/// A last line that no line feed ends is kept as it stands.
pub proof fn lemma_unended_last_line(ls: Seq<Seq<u8>>, last: Seq<u8>)
    requires
        forall|k: int| 0 <= k < ls.len() ==> plain_line(#[trigger] ls[k]),
        last.len() > 0,
        lacks(last, LF),
    ensures
        lines(join_lines(ls) + last) == ls.push(last),
{
    assert forall|k: int| 0 <= k < ls.len() implies lacks(#[trigger] ls[k], LF) by {
        assert(plain_line(ls[k]));
    }
    lemma_split_joined(ls, last);
    lemma_split_single(last, LF);
    let p = split_on(join_lines(ls) + last, LF);
    assert(p =~= ls.push(last));
    assert(p.drop_last() =~= ls);
    assert(ls.map_values(|l: Seq<u8>| strip_cr(l)) =~= ls) by {
        assert forall|k: int| 0 <= k < ls.len() implies strip_cr(ls[k]) == ls[k] by {
            assert(plain_line(ls[k]));
        }
    }
}

/// Pieces without the separator, put together with it between each two,
/// split back into the same pieces.
pub proof fn lemma_split_of_joined(p: Seq<Seq<u8>>, sep: u8)
    requires
        p.len() >= 1,
        forall|k: int| 0 <= k < p.len() ==> lacks(#[trigger] p[k], sep),
    ensures
        split_on(join_with(p, sep), sep) == p,
    decreases p.len(),
{
    if p.len() == 1 {
        assert(lacks(p[0], sep));
        lemma_split_single(p[0], sep);
        assert(p =~= seq![p[0]]);
    } else {
        let front = p.drop_last();
        assert forall|k: int| 0 <= k < front.len() implies lacks(#[trigger] front[k], sep) by {
            assert(front[k] == p[k]);
        }
        lemma_split_of_joined(front, sep);
        assert(lacks(p[p.len() - 1], sep));
        lemma_split_single(p.last(), sep);
        lemma_split_concat(join_with(front, sep), p.last(), sep);
        assert(front + seq![p.last()] =~= p);
    }
}

} // verus!

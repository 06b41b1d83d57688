//! Text as a sequence of lines, the way `str::lines` reads it and
//! `join("\n")` writes it back.

use vstd::prelude::*;

use crate::text::push_char;

verus! {

/// The pieces of `s` between its `'\n'` characters (`str::split('\n')`):
/// one more piece than `s` has newlines.
pub open spec fn split_nl(s: Seq<char>) -> Seq<Seq<char>>
    decreases s.len(),
{
    if s.len() == 0 {
        seq![Seq::<char>::empty()]
    } else {
        let p = split_nl(s.drop_last());
        if s.last() == '\n' {
            p.push(Seq::<char>::empty())
        } else {
            p.update(p.len() - 1, p.last().push(s.last()))
        }
    }
}

/// `l` without one trailing carriage return.
pub open spec fn strip_cr(l: Seq<char>) -> Seq<char> {
    if l.len() > 0 && l.last() == '\r' {
        l.drop_last()
    } else {
        l
    }
}

/// The lines of `s`, as `str::lines` gives them: the text is cut after each
/// `'\n'`, a line that ends with `"\n"` or `"\r\n"` loses that ending, and a
/// final empty piece (after a last newline, or of the empty text) is no line.
pub open spec fn lines(s: Seq<char>) -> Seq<Seq<char>> {
    let p = split_nl(s);
    let ended = p.drop_last().map_values(|l: Seq<char>| strip_cr(l));
    if p.last().len() == 0 {
        ended
    } else {
        ended.push(p.last())
    }
}

/// The lines `ls` joined with `'\n'` between them (`join("\n")`).
pub open spec fn join_lines(ls: Seq<Seq<char>>) -> Seq<char>
    decreases ls.len(),
{
    if ls.len() == 0 {
        Seq::empty()
    } else if ls.len() == 1 {
        ls[0]
    } else {
        join_lines(ls.drop_last()) + seq!['\n'] + ls.last()
    }
}

pub proof fn lemma_split_nl_nonempty(s: Seq<char>)
    ensures
        split_nl(s).len() >= 1,
    decreases s.len(),
{
    if s.len() > 0 {
        lemma_split_nl_nonempty(s.drop_last());
    }
}

/// The last piece is empty exactly when `s` is empty or ends with a newline.
pub proof fn lemma_split_nl_last(s: Seq<char>)
    ensures
        split_nl(s).len() >= 1,
        (split_nl(s).last().len() == 0) == (s.len() == 0 || s.last() == '\n'),
    decreases s.len(),
{
    lemma_split_nl_nonempty(s);
    if s.len() > 0 {
        lemma_split_nl_nonempty(s.drop_last());
    }
}

/// No character of `l` is `x`.
pub open spec fn no_char(l: Seq<char>, x: char) -> bool {
    forall|j: int| 0 <= j < l.len() ==> #[trigger] l[j] != x
}

/// `l` ends with a carriage return.
pub open spec fn ends_with_cr(l: Seq<char>) -> bool {
    l.len() > 0 && l.last() == '\r'
}

/// The pieces between newlines of each of `ls`, one after the other.
pub open spec fn flat_pieces(ls: Seq<Seq<char>>) -> Seq<Seq<char>>
    decreases ls.len(),
{
    if ls.len() == 0 {
        Seq::empty()
    } else {
        flat_pieces(ls.drop_last()) + split_nl(ls.last())
    }
}

/// No piece holds a newline, nor any character that `s` lacks.
pub proof fn lemma_split_nl_chars(s: Seq<char>, x: char)
    requires
        x == '\n' || no_char(s, x),
    ensures
        forall|i: int| 0 <= i < split_nl(s).len() ==> no_char(#[trigger] split_nl(s)[i], x),
    decreases s.len(),
{
    lemma_split_nl_nonempty(s);
    if s.len() > 0 {
        let d = s.drop_last();
        lemma_split_nl_chars(d, x);
        lemma_split_nl_nonempty(d);
        let p = split_nl(d);
        if s.last() != '\n' {
            let q = split_nl(s);
            assert forall|i: int| 0 <= i < q.len() implies no_char(#[trigger] q[i], x) by {
                if i == q.len() - 1 {
                    assert(no_char(p[i], x));
                    assert(q[i] == p[i].push(s.last()));
                    assert forall|j: int| 0 <= j < q[i].len() implies #[trigger] q[i][j] != x by {
                        if j < p[i].len() {
                            assert(q[i][j] == p[i][j]);
                        } else {
                            assert(q[i][j] == s[s.len() - 1]);
                        }
                    }
                } else {
                    assert(q[i] == p[i]);
                }
            }
        } else {
            let q = split_nl(s);
            assert forall|i: int| 0 <= i < q.len() implies no_char(#[trigger] q[i], x) by {
                if i < p.len() {
                    assert(q[i] == p[i]);
                }
            }
        }
    }
}

/// A text without newlines is one piece.
pub proof fn lemma_split_nl_single(l: Seq<char>)
    requires
        no_char(l, '\n'),
    ensures
        split_nl(l) == seq![l],
    decreases l.len(),
{
    if l.len() > 0 {
        let d = l.drop_last();
        assert(no_char(d, '\n')) by {
            assert forall|j: int| 0 <= j < d.len() implies #[trigger] d[j] != '\n' by {
                assert(d[j] == l[j]);
            }
        }
        lemma_split_nl_single(d);
        assert(l[l.len() - 1] != '\n');
        assert(d.push(l.last()) =~= l);
        assert(split_nl(l) =~= seq![l]);
    } else {
        assert(l =~= Seq::<char>::empty());
    }
}

/// The pieces of two texts joined by a newline are the pieces of the first
/// followed by those of the second.
pub proof fn lemma_split_nl_cat(x: Seq<char>, y: Seq<char>)
    ensures
        split_nl(x + seq!['\n'] + y) == split_nl(x) + split_nl(y),
    decreases y.len(),
{
    let s = x + seq!['\n'] + y;
    lemma_split_nl_nonempty(x);
    if y.len() == 0 {
        assert(s.drop_last() =~= x);
        assert(s.last() == '\n');
        assert(split_nl(s) =~= split_nl(x) + split_nl(y));
    } else {
        let y0 = y.drop_last();
        lemma_split_nl_cat(x, y0);
        lemma_split_nl_nonempty(y0);
        assert(s.drop_last() =~= x + seq!['\n'] + y0);
        assert(s.last() == y.last());
        assert(split_nl(s) =~= split_nl(x) + split_nl(y));
    }
}

/// The pieces of the joined lines are the pieces of each line in turn.
pub proof fn lemma_split_join(ls: Seq<Seq<char>>)
    requires
        ls.len() >= 1,
    ensures
        split_nl(join_lines(ls)) == flat_pieces(ls),
    decreases ls.len(),
{
    if ls.len() == 1 {
        assert(ls.drop_last() =~= Seq::<Seq<char>>::empty());
        assert(flat_pieces(ls.drop_last()) =~= Seq::<Seq<char>>::empty());
        assert(flat_pieces(ls) =~= split_nl(ls[0]));
    } else {
        lemma_split_join(ls.drop_last());
        lemma_split_nl_cat(join_lines(ls.drop_last()), ls.last());
    }
}

/// `flat_pieces` taken from the front.
pub proof fn lemma_flat_front(e: Seq<char>, c: Seq<Seq<char>>)
    ensures
        flat_pieces(seq![e] + c) == split_nl(e) + flat_pieces(c),
    decreases c.len(),
{
    let ec = seq![e] + c;
    if c.len() == 0 {
        assert(ec =~= seq![e]);
        assert(ec.drop_last() =~= Seq::<Seq<char>>::empty());
        assert(flat_pieces(ec.drop_last()) =~= Seq::<Seq<char>>::empty());
        assert(flat_pieces(c) =~= Seq::<Seq<char>>::empty());
        assert(flat_pieces(ec) =~= split_nl(e));
        assert(split_nl(e) + flat_pieces(c) =~= split_nl(e));
    } else {
        lemma_flat_front(e, c.drop_last());
        assert(ec.drop_last() =~= seq![e] + c.drop_last());
        assert(ec.last() == c.last());
        assert(flat_pieces(ec) =~= split_nl(e) + flat_pieces(c));
    }
}

/// The joined lines are non-empty and end as the last line does.
pub proof fn lemma_join_last(ls: Seq<Seq<char>>)
    requires
        ls.len() >= 1,
        ls.last().len() > 0,
    ensures
        join_lines(ls).len() > 0,
        join_lines(ls).last() == ls.last().last(),
{
}

/// The lines of a text hold no newline.
pub proof fn lemma_lines_no_newline(s: Seq<char>)
    ensures
        forall|i: int| 0 <= i < lines(s).len() ==> no_char(#[trigger] lines(s)[i], '\n'),
{
    lemma_split_nl_chars(s, '\n');
    lemma_split_nl_nonempty(s);
    let p = split_nl(s);
    let ls = lines(s);
    assert forall|i: int| 0 <= i < ls.len() implies no_char(#[trigger] ls[i], '\n') by {
        assert(no_char(p[i], '\n'));
        if i < p.len() - 1 {
            assert(ls[i] == strip_cr(p[i]));
            assert forall|j: int| 0 <= j < ls[i].len() implies #[trigger] ls[i][j] != '\n' by {
                assert(ls[i][j] == p[i][j]);
            }
        } else {
            assert(ls[i] == p[i]);
        }
    }
}

/// Reading back lines joined with newlines, and ended with one when `ended`
/// holds, gives their pieces, provided no piece that a newline follows ends
/// with a carriage return.
pub proof fn lemma_lines_of_joined(c: Seq<Seq<char>>, ended: bool)
    requires
        c.len() >= 1,
        forall|i: int|
            0 <= i < flat_pieces(c).len() && (ended || i + 1 < flat_pieces(c).len()) ==> !ends_with_cr(
                #[trigger] flat_pieces(c)[i],
            ),
        !ended ==> flat_pieces(c).last().len() > 0,
    ensures
        lines(if ended { join_lines(c).push('\n') } else { join_lines(c) }) == flat_pieces(c),
{
    let f = flat_pieces(c);
    let j = join_lines(c);
    lemma_split_join(c);
    lemma_split_nl_nonempty(j);
    if ended {
        let t = j.push('\n');
        assert(t.drop_last() =~= j);
        assert(split_nl(t) == f.push(Seq::<char>::empty()));
        assert(split_nl(t).drop_last() =~= f);
        assert(lines(t) =~= f);
    } else {
        assert(f.drop_last().map_values(|l: Seq<char>| strip_cr(l)) =~= f.drop_last());
        assert(f.drop_last().push(f.last()) =~= f);
    }
}

/// The lines of `s` (`str::lines`).
pub fn split_lines(s: &Vec<char>) -> (r: Vec<Vec<char>>)
    ensures
        r.deep_view() == lines(s@),
{
    let mut done: Vec<Vec<char>> = Vec::new();
    let mut cur: Vec<char> = Vec::new();
    let mut i: usize = 0;
    while i < s.len()
        invariant
            i <= s@.len(),
            split_nl(s@.take(i as int)).len() >= 1,
            done.deep_view() == split_nl(s@.take(i as int)).drop_last().map_values(
                |l: Seq<char>| strip_cr(l),
            ),
            cur@ == split_nl(s@.take(i as int)).last(),
        decreases s@.len() - i,
    {
        let c = s[i];
        let ghost p = split_nl(s@.take(i as int));
        let ghost old_done = done.deep_view();
        proof {
            lemma_split_nl_nonempty(s@.take(i as int));
            assert(s@.take(i + 1).drop_last() =~= s@.take(i as int));
        }
        if c == '\n' {
            let line = if cur.len() > 0 && cur[cur.len() - 1] == '\r' {
                let mut l = cur.clone();
                l.pop();
                l
            } else {
                cur.clone()
            };
            assert(line.deep_view() =~= strip_cr(cur@)) by {
                if cur@.len() > 0 && cur@.last() == '\r' {
                    assert(line@ =~= cur@.drop_last());
                }
            }
            done.push(line);
            cur = Vec::new();
            proof {
                assert(split_nl(s@.take(i + 1)) == p.push(Seq::<char>::empty()));
                assert(done.deep_view() =~= old_done.push(strip_cr(p.last())));
                assert(p.push(Seq::<char>::empty()).drop_last() =~= p);
                assert(p.drop_last().push(p.last()) =~= p);
                assert(p.drop_last().map_values(|l: Seq<char>| strip_cr(l)).push(strip_cr(p.last()))
                    =~= p.map_values(|l: Seq<char>| strip_cr(l)));
            }
        } else {
            cur.push(c);
            proof {
                let q = split_nl(s@.take(i + 1));
                assert(q == p.update(p.len() - 1, p.last().push(c)));
                assert(q.drop_last() =~= p.drop_last());
                assert(done.deep_view() =~= old_done);
            }
        }
        i = i + 1;
        assert(cur@ =~= split_nl(s@.take(i as int)).last());
    }
    assert(s@.take(i as int) =~= s@);
    let ghost p = split_nl(s@);
    let ghost old_done = done.deep_view();
    if cur.len() > 0 {
        assert(cur.deep_view() =~= cur@);
        done.push(cur);
        assert(done.deep_view() =~= old_done.push(p.last()));
    }
    assert(done.deep_view() =~= lines(s@));
    done
}

/// Appends the lines `ls` joined with `'\n'`.
pub fn push_joined(out: &mut String, ls: &Vec<Vec<char>>)
    ensures
        final(out)@ == old(out)@ + join_lines(ls.deep_view()),
{
    let ghost start = out@;
    let mut j: usize = 0;
    while j < ls.len()
        invariant
            j <= ls@.len(),
            out@ == start + join_lines(ls.deep_view().take(j as int)),
        decreases ls@.len() - j,
    {
        let ghost before = out@;
        if j > 0 {
            push_char(out, '\n');
        }
        let line = &ls[j];
        let mut k: usize = 0;
        while k < line.len()
            invariant
                k <= line@.len(),
                line@ == ls.deep_view()[j as int],
                j > 0 ==> out@ == before + seq!['\n'] + line@.take(k as int),
                j == 0 ==> out@ == before + line@.take(k as int),
            decreases line@.len() - k,
        {
            push_char(out, line[k]);
            k = k + 1;
            assert(line@.take(k as int) =~= line@.take(k - 1).push(line@[k - 1]));
        }
        assert(line@.take(k as int) =~= line@);
        assert(ls.deep_view().take(j + 1).drop_last() =~= ls.deep_view().take(j as int));
        j = j + 1;
        assert(out@ =~= start + join_lines(ls.deep_view().take(j as int)));
    }
    assert(ls.deep_view().take(j as int) =~= ls.deep_view());
}

} // verus!

//! The configuration file as text: where its `[asterisk]` section lies, and
//! how the dashboard replaces that section while every other line stays.

use vstd::prelude::*;

use crate::lines::{
    ends_with_cr, flat_pieces, join_lines, lemma_flat_front, lemma_join_last, lemma_lines_no_newline,
    lemma_lines_of_joined, lemma_split_nl_last, lemma_split_nl_nonempty,
    lemma_split_join, lemma_split_nl_single, lines, no_char, push_joined, split_lines, split_nl,
    strip_cr,
};
use crate::text::{
    chars_of, contains_from, has_prefix_at, lemma_trim_start_push, push_char, starts_with, trim_start,
    trim_start_index,
};

verus! {

/// The line opens the `[asterisk]` section: once its leading whitespace is
/// left out, it begins with `[asterisk]`.
pub open spec fn is_asterisk_header(l: Seq<char>) -> bool {
    starts_with(trim_start(l), "[asterisk]"@)
}

/// The line opens some section: once its leading whitespace is left out, it
/// begins with `[` and holds a `]`.
pub open spec fn is_section_header(l: Seq<char>) -> bool {
    let t = trim_start(l);
    t.len() > 0 && t[0] == '[' && t.contains(']')
}

/// The lines `ls` with each `[asterisk]` section, from its header up to the
/// next section header, replaced by the one line `section`; `skipping` holds
/// while the lines of a replaced section are being left out.
pub open spec fn replace_sections(ls: Seq<Seq<char>>, section: Seq<char>, skipping: bool) -> Seq<Seq<char>>
    decreases ls.len(), if skipping { 1int } else { 0int },
{
    if ls.len() == 0 {
        Seq::empty()
    } else if skipping {
        if is_section_header(ls[0]) {
            replace_sections(ls, section, false)
        } else {
            replace_sections(ls.drop_first(), section, true)
        }
    } else if is_asterisk_header(ls[0]) {
        seq![section] + replace_sections(ls.drop_first(), section, true)
    } else {
        seq![ls[0]] + replace_sections(ls.drop_first(), section, false)
    }
}

/// Some line of `ls` opens the `[asterisk]` section.
pub open spec fn has_asterisk_header(ls: Seq<Seq<char>>) -> bool {
    exists|j: int| 0 <= j < ls.len() && #[trigger] is_asterisk_header(ls[j])
}

/// `out` with `section` added as its last line, after an empty line unless
/// `out` is empty or already ends with one.
pub open spec fn append_section(out: Seq<Seq<char>>, section: Seq<char>) -> Seq<Seq<char>> {
    let padded = if out.len() > 0 && out.last().len() > 0 {
        out.push(Seq::<char>::empty())
    } else {
        out
    };
    padded.push(section)
}

/// The lines of the rewritten text: those of `original` with each
/// `[asterisk]` section replaced by the one line `section`, or with `section`
/// added at the end when there is none.
pub open spec fn rewritten_lines(original: Seq<char>, section: Seq<char>) -> Seq<Seq<char>> {
    let ls = lines(original);
    let kept = replace_sections(ls, section, false);
    if has_asterisk_header(ls) {
        kept
    } else {
        append_section(kept, section)
    }
}

/// The configuration text `original` with its `[asterisk]` section replaced
/// by `section`, or with `section` added at the end when it has none: the
/// lines of `rewritten_lines` joined with `'\n'`, ending with a newline
/// exactly when `original` does.
pub open spec fn rewritten(original: Seq<char>, section: Seq<char>) -> Seq<char> {
    let text = join_lines(rewritten_lines(original, section));
    if original.len() > 0 && original.last() == '\n' {
        text.push('\n')
    } else {
        text
    }
}

/// An `[asterisk]` header opens a section.
pub proof fn lemma_asterisk_header_is_section_header(l: Seq<char>)
    ensures
        is_asterisk_header(l) ==> is_section_header(l),
{
    reveal_strlit("[asterisk]");
    if is_asterisk_header(l) {
        let t = trim_start(l);
        assert(t[0] == t.take(10)[0]);
        assert(t[9] == t.take(10)[9]);
    }
}

/// Without an `[asterisk]` header no line is replaced or left out.
pub proof fn lemma_no_header_keeps_lines(ls: Seq<Seq<char>>, section: Seq<char>)
    requires
        !has_asterisk_header(ls),
    ensures
        replace_sections(ls, section, false) == ls,
    decreases ls.len(),
{
    if ls.len() > 0 {
        assert(!is_asterisk_header(ls[0]));
        let rest = ls.drop_first();
        assert forall|j: int| 0 <= j < rest.len() implies !#[trigger] is_asterisk_header(rest[j]) by {
            assert(rest[j] == ls[j + 1]);
        }
        lemma_no_header_keeps_lines(rest, section);
        assert(seq![ls[0]] + rest =~= ls);
    }
}

/// Law: a configuration text without an `[asterisk]` section keeps every
/// one of its lines, in order, and gets the section added at the end, after
/// an empty line unless it is empty or already ends with one.
pub proof fn lemma_rewrite_without_section_appends(original: Seq<char>, section: Seq<char>)
    requires
        !has_asterisk_header(lines(original)),
    ensures
        rewritten(original, section) == ({
            let text = join_lines(append_section(lines(original), section));
            if original.len() > 0 && original.last() == '\n' {
                text.push('\n')
            } else {
                text
            }
        }),
{
    lemma_no_header_keeps_lines(lines(original), section);
}

/// `section` can stand as the `[asterisk]` section of a configuration text:
/// it is not empty, does not end with a newline, none of its lines ends with
/// a carriage return, its first line opens the `[asterisk]` section and no other line opens a
/// section.
pub open spec fn is_section_block(section: Seq<char>) -> bool {
    let p = split_nl(section);
    &&& section.len() > 0
    &&& section.last() != '\n'
    &&& forall|i: int| 0 <= i < p.len() ==> !#[trigger] ends_with_cr(p[i])
    &&& is_asterisk_header(p[0])
    &&& forall|i: int| 1 <= i < p.len() ==> !#[trigger] is_section_header(p[i])
}

/// A line that holds no newline and does not open the `[asterisk]` section.
pub open spec fn is_plain_line(l: Seq<char>) -> bool {
    no_char(l, '\n') && !is_asterisk_header(l)
}

/// The shape of rewritten lines: each is `section` or a plain line, and
/// what follows a `section` line is `section` again or opens a section.
pub open spec fn is_settled(c: Seq<Seq<char>>, section: Seq<char>) -> bool {
    &&& forall|i: int| 0 <= i < c.len() ==> #[trigger] c[i] == section || is_plain_line(c[i])
    &&& forall|i: int, k: int|
        #![trigger c[i], c[k]]
        0 <= i && k == i + 1 && k < c.len() && c[i] == section ==> c[k] == section
            || is_section_header(c[k])
}

/// A plain line is never the section block.
pub proof fn lemma_plain_is_not_block(l: Seq<char>, section: Seq<char>)
    requires
        is_section_block(section),
        no_char(l, '\n'),
        !is_asterisk_header(l),
    ensures
        l != section,
{
    if l == section {
        lemma_split_nl_single(l);
    }
}

/// Lines that open no section are left out while skipping.
pub proof fn lemma_skip_run(x: Seq<Seq<char>>, f: Seq<Seq<char>>, section: Seq<char>)
    requires
        forall|i: int| 0 <= i < x.len() ==> !#[trigger] is_section_header(x[i]),
    ensures
        replace_sections(x + f, section, true) == replace_sections(f, section, true),
    decreases x.len(),
{
    if x.len() == 0 {
        assert(x + f =~= f);
    } else {
        let xf = x + f;
        assert(xf[0] == x[0]);
        assert(xf.drop_first() =~= x.drop_first() + f);
        let x1 = x.drop_first();
        assert forall|i: int| 0 <= i < x1.len() implies !#[trigger] is_section_header(x1[i]) by {
            assert(x1[i] == x[i + 1]);
        }
        lemma_skip_run(x1, f, section);
    }
}

/// What `replace_sections` gives for lines without newlines: settled lines, that start with a section line or a
/// section header when skipping, that hold the section when some line is an
/// `[asterisk]` header, and that end with the section or with the last line.
pub proof fn lemma_replace_settled(ls: Seq<Seq<char>>, section: Seq<char>, skipping: bool)
    requires
        is_section_block(section),
        forall|i: int| 0 <= i < ls.len() ==> no_char(#[trigger] ls[i], '\n'),
    ensures
        is_settled(replace_sections(ls, section, skipping), section),
        skipping ==> replace_sections(ls, section, skipping).len() == 0 || replace_sections(
            ls,
            section,
            skipping,
        )[0] == section || is_section_header(replace_sections(ls, section, skipping)[0]),
        !skipping && ls.len() > 0 ==> replace_sections(ls, section, skipping).len() > 0,
        has_asterisk_header(ls) ==> exists|k: int|
            0 <= k < replace_sections(ls, section, skipping).len() && #[trigger] replace_sections(
                ls,
                section,
                skipping,
            )[k] == section,
        replace_sections(ls, section, skipping).len() > 0 ==> replace_sections(
            ls,
            section,
            skipping,
        ).last() == section || (ls.len() > 0 && replace_sections(ls, section, skipping).last()
            == ls.last()),
    decreases ls.len(), if skipping { 1int } else { 0int },
{
    let r = replace_sections(ls, section, skipping);
    if ls.len() == 0 {
        assert(r.len() == 0);
    } else {
        let rest = ls.drop_first();
        assert forall|i: int| 0 <= i < rest.len() implies no_char(#[trigger] rest[i], '\n') by {
            assert(rest[i] == ls[i + 1]);
        }
        assert(has_asterisk_header(ls) && !is_asterisk_header(ls[0]) ==> has_asterisk_header(rest))
            by {
            if has_asterisk_header(ls) && !is_asterisk_header(ls[0]) {
                let j = choose|j: int| 0 <= j < ls.len() && #[trigger] is_asterisk_header(ls[j]);
                assert(rest[j - 1] == ls[j]);
            }
        }
        lemma_asterisk_header_is_section_header(ls[0]);
        if rest.len() > 0 {
            assert(rest.last() == ls.last());
        }
        if skipping {
            if is_section_header(ls[0]) {
                lemma_replace_settled(ls, section, false);
            } else {
                lemma_replace_settled(rest, section, true);
            }
        } else if is_asterisk_header(ls[0]) {
            lemma_replace_settled(rest, section, true);
            let r1 = replace_sections(rest, section, true);
            assert(r == seq![section] + r1);
            assert(r[0] == section);
            assert forall|i: int| 0 <= i < r.len() implies #[trigger] r[i] == section
                || is_plain_line(r[i]) by {
                if i > 0 {
                    assert(r[i] == r1[i - 1]);
                }
            }
            assert forall|i: int, k: int|
                #![trigger r[i], r[k]]
                0 <= i && k == i + 1 && k < r.len() && r[i] == section implies r[k] == section
                || is_section_header(r[k]) by {
                assert(r[k] == r1[k - 1]);
                if i > 0 {
                    assert(r[i] == r1[i - 1]);
                }
            }
            if r1.len() > 0 {
                assert(r.last() == r1.last());
            }
        } else {
            lemma_replace_settled(rest, section, false);
            let r1 = replace_sections(rest, section, false);
            assert(r == seq![ls[0]] + r1);
            lemma_plain_is_not_block(ls[0], section);
            assert forall|i: int| 0 <= i < r.len() implies #[trigger] r[i] == section
                || is_plain_line(r[i]) by {
                if i > 0 {
                    assert(r[i] == r1[i - 1]);
                }
            }
            assert forall|i: int, k: int|
                #![trigger r[i], r[k]]
                0 <= i && k == i + 1 && k < r.len() && r[i] == section implies r[k] == section
                || is_section_header(r[k]) by {
                assert(r[k] == r1[k - 1]);
                assert(i > 0);
                assert(r[i] == r1[i - 1]);
            }
            if has_asterisk_header(ls) {
                let k = choose|k: int| 0 <= k < r1.len() && #[trigger] r1[k] == section;
                assert(r[k + 1] == r1[k]);
            }
            if r1.len() > 0 {
                assert(r.last() == r1.last());
            }
        }
    }
}

/// Settled lines stay settled without their first line.
proof fn lemma_settled_rest(c: Seq<Seq<char>>, section: Seq<char>)
    requires
        is_settled(c, section),
        c.len() > 0,
    ensures
        is_settled(c.drop_first(), section),
{
    let c1 = c.drop_first();
    assert forall|i: int| 0 <= i < c1.len() implies #[trigger] c1[i] == section || is_plain_line(
        c1[i],
    ) by {
        assert(c1[i] == c[i + 1]);
    }
    assert forall|i: int, k: int|
        #![trigger c1[i], c1[k]]
        0 <= i && k == i + 1 && k < c1.len() && c1[i] == section implies c1[k] == section
        || is_section_header(c1[k]) by {
        assert(c1[i] == c[i + 1]);
        assert(c1[k] == c[k + 1]);
    }
}

/// Settled lines, joined and read back as lines, are settled again by the
/// same rewrite: each section block is replaced by itself and every other
/// line kept.
pub proof fn lemma_settled_reread(c: Seq<Seq<char>>, section: Seq<char>)
    requires
        is_section_block(section),
        is_settled(c, section),
    ensures
        replace_sections(flat_pieces(c), section, false) == c,
        (exists|k: int| 0 <= k < c.len() && #[trigger] c[k] == section) ==> has_asterisk_header(
            flat_pieces(c),
        ),
    decreases c.len(),
{
    if c.len() == 0 {
        assert(flat_pieces(c) =~= Seq::<Seq<char>>::empty());
        assert(replace_sections(flat_pieces(c), section, false) =~= c);
    } else {
        let e = c[0];
        let c1 = c.drop_first();
        assert(c =~= seq![e] + c1);
        lemma_flat_front(e, c1);
        let f = flat_pieces(c1);
        assert(is_settled(c1, section)) by {
            assert forall|i: int| 0 <= i < c1.len() implies #[trigger] c1[i] == section
                || is_plain_line(c1[i]) by {
                assert(c1[i] == c[i + 1]);
            }
            assert forall|i: int, k: int|
                #![trigger c1[i], c1[k]]
                0 <= i && k == i + 1 && k < c1.len() && c1[i] == section implies c1[k] == section
                || is_section_header(c1[k]) by {
                assert(c1[i] == c[i + 1]);
                assert(c1[k] == c[k + 1]);
            }
        }
        lemma_settled_reread(c1, section);
        if e == section {
            let p = split_nl(section);
            lemma_split_nl_nonempty(section);
            let pf = p + f;
            assert(pf[0] == p[0]);
            assert(pf.drop_first() =~= p.drop_first() + f);
            let x = p.drop_first();
            assert forall|i: int| 0 <= i < x.len() implies !#[trigger] is_section_header(x[i]) by {
                assert(x[i] == p[i + 1]);
            }
            lemma_skip_run(x, f, section);
            if c1.len() > 0 {
                let h = c1[0];
                assert(c[0] == section && c[1] == h);
                assert(h == section || is_section_header(h));
                lemma_flat_front(h, c1.drop_first());
                assert(c1 =~= seq![h] + c1.drop_first());
                if h == section {
                    lemma_asterisk_header_is_section_header(p[0]);
                    assert(f[0] == p[0]);
                } else {
                    assert(is_plain_line(h));
                    lemma_split_nl_single(h);
                    assert(f[0] == h);
                }
                assert(replace_sections(f, section, true) == replace_sections(f, section, false));
            } else {
                assert(f =~= Seq::<Seq<char>>::empty());
            }
            assert(replace_sections(pf, section, false) =~= seq![section] + c1);
            assert(flat_pieces(c)[0] == p[0]);
        } else {
            assert(is_plain_line(e));
            lemma_split_nl_single(e);
            let ef = seq![e] + f;
            assert(ef[0] == e);
            assert(ef.drop_first() =~= f);
            assert(replace_sections(ef, section, false) =~= seq![e] + c1);
            if exists|k: int| 0 <= k < c.len() && #[trigger] c[k] == section {
                let k = choose|k: int| 0 <= k < c.len() && #[trigger] c[k] == section;
                assert(c1[k - 1] == c[k]);
                let j = choose|j: int| 0 <= j < f.len() && #[trigger] is_asterisk_header(f[j]);
                assert(ef[j + 1] == f[j]);
            }
        }
    }
}

/// The pieces of settled lines end with a carriage return only where a
/// line that is not the section does: at most the very last piece, unless
/// `ended` says that a newline follows it too.
pub proof fn lemma_settled_pieces(c: Seq<Seq<char>>, section: Seq<char>, ended: bool)
    requires
        is_section_block(section),
        is_settled(c, section),
        forall|i: int|
            0 <= i < c.len() && c[i] != section && (ended || i + 1 < c.len()) ==> !ends_with_cr(
                #[trigger] c[i],
            ),
    ensures
        forall|i: int|
            0 <= i < flat_pieces(c).len() && (ended || i + 1 < flat_pieces(c).len()) ==> !ends_with_cr(
                #[trigger] flat_pieces(c)[i],
            ),
    decreases c.len(),
{
    if c.len() > 0 {
        let d = c.drop_last();
        assert(is_settled(d, section)) by {
            assert forall|i: int| 0 <= i < d.len() implies #[trigger] d[i] == section
                || is_plain_line(d[i]) by {
                assert(d[i] == c[i]);
            }
            assert forall|i: int, k: int|
                #![trigger d[i], d[k]]
                0 <= i && k == i + 1 && k < d.len() && d[i] == section implies d[k] == section
                || is_section_header(d[k]) by {
                assert(d[i] == c[i]);
                assert(d[k] == c[k]);
            }
        }
        assert forall|i: int|
            0 <= i < d.len() && d[i] != section && (true || i + 1 < d.len()) implies !ends_with_cr(
                #[trigger] d[i],
            ) by {
            assert(d[i] == c[i]);
        }
        lemma_settled_pieces(d, section, true);
        let l = c.last();
        assert(l == c[c.len() - 1]);
        let q = split_nl(l);
        lemma_split_nl_nonempty(l);
        if l != section {
            lemma_split_nl_single(l);
        }
        let fd = flat_pieces(d);
        let f = flat_pieces(c);
        assert(f == fd + q);
        assert forall|i: int| 0 <= i < f.len() && (ended || i + 1 < f.len()) implies !ends_with_cr(
            #[trigger] f[i],
        ) by {
            if i < fd.len() {
                assert(f[i] == fd[i]);
            } else {
                assert(f[i] == q[i - fd.len()]);
            }
        }
    }
}

/// Whether the rewritten lines that are not the section and that a newline
/// follows in the rewritten text are free of a final carriage return.
/// Reading the text back drops such a carriage return.
pub open spec fn kept_lines_end_clean(original: Seq<char>, section: Seq<char>) -> bool {
    let c = rewritten_lines(original, section);
    let ended = original.len() > 0 && original.last() == '\n';
    forall|i: int|
        0 <= i < c.len() && c[i] != section && (ended || i + 1 < c.len()) ==> !ends_with_cr(
            #[trigger] c[i],
        )
}

/// The rewritten lines are settled and hold the section; when the last is
/// not the section, it is the last line of `original`, which has an
/// `[asterisk]` header.
pub proof fn lemma_rewritten_lines_settled(original: Seq<char>, section: Seq<char>)
    requires
        is_section_block(section),
    ensures
        is_settled(rewritten_lines(original, section), section),
        rewritten_lines(original, section).len() >= 1,
        exists|k: int|
            0 <= k < rewritten_lines(original, section).len()
                && #[trigger] rewritten_lines(original, section)[k] == section,
        rewritten_lines(original, section).last() != section ==> has_asterisk_header(
            lines(original),
        ) && rewritten_lines(original, section).last() == lines(original).last(),
{
    reveal_strlit("[asterisk]");
    let ls = lines(original);
    lemma_lines_no_newline(original);
    lemma_replace_settled(ls, section, false);
    let kept = replace_sections(ls, section, false);
    let has_header = has_asterisk_header(ls);
    let c = rewritten_lines(original, section);
    if !has_header {
        lemma_no_header_keeps_lines(ls, section);
        assert(kept == ls);
        let padded = if kept.len() > 0 && kept.last().len() > 0 {
            kept.push(Seq::<char>::empty())
        } else {
            kept
        };
        assert(c == padded.push(section));
        assert(is_plain_line(Seq::<char>::empty()));
        assert forall|i: int| 0 <= i < padded.len() implies is_plain_line(#[trigger] padded[i]) by {
            if i < ls.len() {
                assert(padded[i] == ls[i]);
                assert(!is_asterisk_header(ls[i]));
            } else {
                assert(padded[i] == Seq::<char>::empty());
            }
        }
        assert forall|i: int| 0 <= i < c.len() implies #[trigger] c[i] == section || is_plain_line(
            c[i],
        ) by {
            if i < padded.len() {
                assert(c[i] == padded[i]);
            }
        }
        assert forall|i: int, k: int|
            #![trigger c[i], c[k]]
            0 <= i && k == i + 1 && k < c.len() && c[i] == section implies c[k] == section
            || is_section_header(c[k]) by {
            assert(c[i] == padded[i]);
            lemma_plain_is_not_block(padded[i], section);
        }
        assert(c[c.len() - 1] == section);
    } else {
        let j = choose|j: int| 0 <= j < ls.len() && #[trigger] is_asterisk_header(ls[j]);
        assert(ls.len() > 0);
    }
}

/// The rewritten text, read back as lines, gives the pieces of the
/// rewritten lines; the text ends with a newline exactly when `original`
/// does.
pub proof fn lemma_rewritten_reads_back(original: Seq<char>, section: Seq<char>)
    requires
        is_section_block(section),
        kept_lines_end_clean(original, section),
    ensures
        lines(rewritten(original, section)) == flat_pieces(rewritten_lines(original, section)),
        (rewritten(original, section).len() > 0 && rewritten(original, section).last() == '\n')
            == (original.len() > 0 && original.last() == '\n'),
{
    let ls = lines(original);
    lemma_lines_no_newline(original);
    lemma_rewritten_lines_settled(original, section);
    let c = rewritten_lines(original, section);
    let ended = original.len() > 0 && original.last() == '\n';
    let t = rewritten(original, section);
    lemma_settled_pieces(c, section, ended);
    // The last line of `c` is not empty and does not end with a newline.
    let last = c.last();
    lemma_split_nl_last(section);
    if last != section {
        assert(is_plain_line(last)) by {
            assert(last == c[c.len() - 1]);
        }
        lemma_split_nl_single(last);
    }
    assert(flat_pieces(c).last() == split_nl(last).last());
    if !ended {
        if last != section {
            lemma_split_nl_last(original);
            lemma_split_nl_nonempty(original);
            assert(original.len() > 0) by {
                if original.len() == 0 {
                    assert(split_nl(original) =~= seq![Seq::<char>::empty()]);
                    assert(ls =~= Seq::<Seq<char>>::empty());
                }
            }
            assert(ls.last() == split_nl(original).last());
            assert(last.len() > 0);
        }
    }
    lemma_lines_of_joined(c, ended);
    assert(lines(t) == flat_pieces(c));
    if !ended {
        if last != section {
            assert(last[last.len() - 1] != '\n');
        }
        lemma_join_last(c);
    }
    assert((t.len() > 0 && t.last() == '\n') == ended);
}

/// Law: saving the same section twice gives the same text as saving it
/// once. It holds for every section block and every configuration text
/// whose kept lines keep no final carriage return that reading the text
/// back would drop.
pub proof fn lemma_rewrite_idempotent(original: Seq<char>, section: Seq<char>)
    requires
        is_section_block(section),
        kept_lines_end_clean(original, section),
    ensures
        rewritten(rewritten(original, section), section) == rewritten(original, section),
{
    let c = rewritten_lines(original, section);
    lemma_rewritten_lines_settled(original, section);
    lemma_rewritten_reads_back(original, section);
    lemma_settled_reread(c, section);
}

/// How many of the lines `ls` open the `[asterisk]` section.
pub open spec fn asterisk_header_count(ls: Seq<Seq<char>>) -> nat
    decreases ls.len(),
{
    if ls.len() == 0 {
        0
    } else {
        (if is_asterisk_header(ls[0]) {
            1nat
        } else {
            0nat
        }) + asterisk_header_count(ls.drop_first())
    }
}

/// How many of the lines `c` are `section`.
pub open spec fn section_count(c: Seq<Seq<char>>, section: Seq<char>) -> nat
    decreases c.len(),
{
    if c.len() == 0 {
        0
    } else {
        (if c[0] == section {
            1nat
        } else {
            0nat
        }) + section_count(c.drop_first(), section)
    }
}

proof fn lemma_header_count_cat(a: Seq<Seq<char>>, b: Seq<Seq<char>>)
    ensures
        asterisk_header_count(a + b) == asterisk_header_count(a) + asterisk_header_count(b),
    decreases a.len(),
{
    if a.len() == 0 {
        assert(a + b =~= b);
    } else {
        assert((a + b)[0] == a[0]);
        assert((a + b).drop_first() =~= a.drop_first() + b);
        lemma_header_count_cat(a.drop_first(), b);
    }
}

proof fn lemma_section_count_cat(a: Seq<Seq<char>>, b: Seq<Seq<char>>, section: Seq<char>)
    ensures
        section_count(a + b, section) == section_count(a, section) + section_count(b, section),
    decreases a.len(),
{
    if a.len() == 0 {
        assert(a + b =~= b);
    } else {
        assert((a + b)[0] == a[0]);
        assert((a + b).drop_first() =~= a.drop_first() + b);
        lemma_section_count_cat(a.drop_first(), b, section);
    }
}

proof fn lemma_header_count_none(x: Seq<Seq<char>>)
    requires
        forall|i: int| 0 <= i < x.len() ==> !#[trigger] is_asterisk_header(x[i]),
    ensures
        asterisk_header_count(x) == 0,
    decreases x.len(),
{
    if x.len() > 0 {
        let x1 = x.drop_first();
        assert forall|i: int| 0 <= i < x1.len() implies !#[trigger] is_asterisk_header(x1[i]) by {
            assert(x1[i] == x[i + 1]);
        }
        lemma_header_count_none(x1);
    }
}

proof fn lemma_section_count_none(x: Seq<Seq<char>>, section: Seq<char>)
    requires
        forall|i: int| 0 <= i < x.len() ==> #[trigger] x[i] != section,
    ensures
        section_count(x, section) == 0,
    decreases x.len(),
{
    if x.len() > 0 {
        let x1 = x.drop_first();
        assert forall|i: int| 0 <= i < x1.len() implies #[trigger] x1[i] != section by {
            assert(x1[i] == x[i + 1]);
        }
        lemma_section_count_none(x1, section);
    }
}

/// The section block holds exactly one `[asterisk]` header.
proof fn lemma_block_header_count(section: Seq<char>)
    requires
        is_section_block(section),
    ensures
        asterisk_header_count(split_nl(section)) == 1,
{
    let p = split_nl(section);
    lemma_split_nl_nonempty(section);
    let x = p.drop_first();
    assert forall|i: int| 0 <= i < x.len() implies !#[trigger] is_asterisk_header(x[i]) by {
        assert(x[i] == p[i + 1]);
        lemma_asterisk_header_is_section_header(x[i]);
    }
    lemma_header_count_none(x);
}

/// `replace_sections` puts one section line for each `[asterisk]` header.
proof fn lemma_replace_count(ls: Seq<Seq<char>>, section: Seq<char>, skipping: bool)
    requires
        is_section_block(section),
        forall|i: int| 0 <= i < ls.len() ==> no_char(#[trigger] ls[i], '\n'),
    ensures
        section_count(replace_sections(ls, section, skipping), section) == asterisk_header_count(ls),
    decreases ls.len(), if skipping { 1int } else { 0int },
{
    if ls.len() > 0 {
        let rest = ls.drop_first();
        assert forall|i: int| 0 <= i < rest.len() implies no_char(#[trigger] rest[i], '\n') by {
            assert(rest[i] == ls[i + 1]);
        }
        lemma_asterisk_header_is_section_header(ls[0]);
        if skipping {
            if is_section_header(ls[0]) {
                lemma_replace_count(ls, section, false);
            } else {
                lemma_replace_count(rest, section, true);
            }
        } else {
            let skip_next = is_asterisk_header(ls[0]);
            lemma_replace_count(rest, section, skip_next);
            let r1 = replace_sections(rest, section, skip_next);
            let x = if skip_next {
                section
            } else {
                ls[0]
            };
            let r = seq![x] + r1;
            assert(r[0] == x);
            assert(r.drop_first() =~= r1);
            if !skip_next {
                lemma_plain_is_not_block(ls[0], section);
            }
        }
    }
}

/// Each settled line that is the section gives one `[asterisk]` header when
/// the lines are read back; no other line gives one.
proof fn lemma_flat_count(c: Seq<Seq<char>>, section: Seq<char>)
    requires
        is_section_block(section),
        is_settled(c, section),
    ensures
        asterisk_header_count(flat_pieces(c)) == section_count(c, section),
    decreases c.len(),
{
    if c.len() == 0 {
        assert(flat_pieces(c) =~= Seq::<Seq<char>>::empty());
    } else {
        let e = c[0];
        let c1 = c.drop_first();
        assert(c =~= seq![e] + c1);
        lemma_flat_front(e, c1);
        lemma_settled_rest(c, section);
        lemma_flat_count(c1, section);
        lemma_header_count_cat(split_nl(e), flat_pieces(c1));
        if e == section {
            lemma_block_header_count(section);
        } else {
            assert(is_plain_line(e));
            lemma_split_nl_single(e);
            assert(seq![e][0] == e);
            assert(seq![e].drop_first() =~= Seq::<Seq<char>>::empty());
            assert(asterisk_header_count(seq![e].drop_first()) == 0);
            assert(asterisk_header_count(split_nl(e)) == 0);
        }
        assert(section_count(c, section) == (if e == section {
            1nat
        } else {
            0nat
        }) + section_count(c1, section));
    }
}

/// A final carriage return does not change whether a line opens the
/// `[asterisk]` section.
proof fn lemma_strip_cr_header(l: Seq<char>)
    ensures
        is_asterisk_header(strip_cr(l)) == is_asterisk_header(l),
{
    reveal_strlit("[asterisk]");
    if ends_with_cr(l) {
        let m = l.drop_last();
        assert(m.push('\r') =~= l);
        lemma_trim_start_push(m, '\r');
        let t = trim_start(m);
        if t.len() == 0 {
            let r = seq!['\r'];
            assert(r.drop_first() =~= Seq::<char>::empty());
            assert(trim_start(r) == trim_start(r.drop_first()));
        } else {
            let u = t.push('\r');
            if t.len() >= 10 {
                assert(u.take(10) =~= t.take(10));
            } else if t.len() == 9 {
                assert(u.take(10)[9] == '\r');
            }
        }
    }
}

proof fn lemma_count_strip(x: Seq<Seq<char>>)
    ensures
        asterisk_header_count(x.map_values(|l: Seq<char>| strip_cr(l))) == asterisk_header_count(x),
    decreases x.len(),
{
    if x.len() > 0 {
        let y = x.map_values(|l: Seq<char>| strip_cr(l));
        assert(y[0] == strip_cr(x[0]));
        assert(y.drop_first() =~= x.drop_first().map_values(|l: Seq<char>| strip_cr(l)));
        lemma_strip_cr_header(x[0]);
        lemma_count_strip(x.drop_first());
    }
}

proof fn lemma_header_count_single(l: Seq<char>)
    ensures
        asterisk_header_count(seq![l]) == if is_asterisk_header(l) {
            1nat
        } else {
            0nat
        },
{
    let x = seq![l];
    assert(x[0] == l);
    assert(x.drop_first() =~= Seq::<Seq<char>>::empty());
    assert(asterisk_header_count(x.drop_first()) == 0);
}

/// Reading a text as lines opens as many `[asterisk]` sections as its
/// pieces between newlines do.
proof fn lemma_lines_header_count(s: Seq<char>)
    ensures
        asterisk_header_count(lines(s)) == asterisk_header_count(split_nl(s)),
{
    reveal_strlit("[asterisk]");
    lemma_split_nl_nonempty(s);
    let p = split_nl(s);
    let a = p.drop_last();
    let e = a.map_values(|l: Seq<char>| strip_cr(l));
    assert(p =~= a + seq![p.last()]);
    lemma_header_count_cat(a, seq![p.last()]);
    lemma_header_count_single(p.last());
    lemma_count_strip(a);
    if p.last().len() > 0 {
        assert(lines(s) =~= e + seq![p.last()]);
        lemma_header_count_cat(e, seq![p.last()]);
    } else {
        assert(lines(s) == e);
    }
}

/// Law: the rewrite leaves as many `[asterisk]` sections as the text had,
/// and one when it had none; so a text with at most one such section has
/// exactly one afterwards. It holds for every section block.
pub proof fn lemma_rewrite_section_count(original: Seq<char>, section: Seq<char>)
    requires
        is_section_block(section),
    ensures
        asterisk_header_count(lines(rewritten(original, section))) == if has_asterisk_header(
            lines(original),
        ) {
            asterisk_header_count(lines(original))
        } else {
            1
        },
{
    reveal_strlit("[asterisk]");
    let ls = lines(original);
    let c = rewritten_lines(original, section);
    let j = join_lines(c);
    let t = rewritten(original, section);
    lemma_rewritten_lines_settled(original, section);
    lemma_split_join(c);
    lemma_lines_header_count(t);
    if original.len() > 0 && original.last() == '\n' {
        assert(t.drop_last() =~= j);
        assert(split_nl(t) =~= split_nl(j) + seq![Seq::<char>::empty()]);
        lemma_header_count_cat(split_nl(j), seq![Seq::<char>::empty()]);
        lemma_header_count_single(Seq::<char>::empty());
    }
    lemma_flat_count(c, section);
    lemma_lines_no_newline(original);
    if has_asterisk_header(ls) {
        lemma_replace_count(ls, section, false);
    } else {
        lemma_no_header_keeps_lines(ls, section);
        let padded = if ls.len() > 0 && ls.last().len() > 0 {
            ls.push(Seq::<char>::empty())
        } else {
            ls
        };
        assert(c == padded + seq![section]);
        assert forall|i: int| 0 <= i < padded.len() implies #[trigger] padded[i] != section by {
            if i < ls.len() {
                assert(padded[i] == ls[i]);
                assert(!is_asterisk_header(ls[i]));
                lemma_plain_is_not_block(ls[i], section);
            } else {
                assert(padded[i] == Seq::<char>::empty());
                assert(no_char(Seq::<char>::empty(), '\n'));
                lemma_plain_is_not_block(Seq::<char>::empty(), section);
            }
        }
        lemma_section_count_none(padded, section);
        lemma_section_count_cat(padded, seq![section], section);
        assert(seq![section][0] == section);
        assert(seq![section].drop_first() =~= Seq::<Seq<char>>::empty());
        assert(section_count(seq![section].drop_first(), section) == 0);
        assert(section_count(seq![section], section) == 1);
        assert(section_count(c, section) == 1);
    }
}

/// Whether the line opens the `[asterisk]` section.
fn line_is_asterisk_header(l: &Vec<char>, header: &Vec<char>) -> (r: bool)
    requires
        header@ == "[asterisk]"@,
    ensures
        r == is_asterisk_header(l@),
{
    let i = trim_start_index(l);
    has_prefix_at(l, i, header)
}

/// Whether the line opens a section.
fn line_is_section_header(l: &Vec<char>) -> (r: bool)
    ensures
        r == is_section_header(l@),
{
    let i = trim_start_index(l);
    i < l.len() && l[i] == '[' && contains_from(l, i, ']')
}

/// Replaces the `[asterisk]` section of the configuration text `original`
/// by `section`, or adds `section` at the end when there is none; the other
/// lines stay as they are.
pub fn rewrite_asterisk_section(original: &str, section: &str) -> (r: String)
    ensures
        r@ == rewritten(original@, section@),
{
    let chars = chars_of(original);
    let ls = split_lines(&chars);
    let sec = chars_of(section);
    let header = chars_of("[asterisk]");
    let ghost all = ls.deep_view();
    let mut out: Vec<Vec<char>> = Vec::new();
    let mut i: usize = 0;
    let mut skipping = false;
    let mut replaced = false;
    assert(all.skip(0) =~= all);
    assert(out.deep_view() =~= Seq::<Seq<char>>::empty());
    while i < ls.len()
        invariant
            all == ls.deep_view(),
            header@ == "[asterisk]"@,
            i <= all.len(),
            out.deep_view() + replace_sections(all.skip(i as int), sec@, skipping)
                == replace_sections(all, sec@, false),
            replaced == (exists|j: int| 0 <= j < i && #[trigger] is_asterisk_header(all[j])),
        decreases (all.len() - i) * 2 + if skipping { 1int } else { 0int },
    {
        let l = &ls[i];
        let ghost rest = all.skip(i as int);
        let ghost old_out = out.deep_view();
        proof {
            assert(rest[0] == all[i as int]);
            assert(rest.drop_first() =~= all.skip(i + 1));
            assert(l@ == all[i as int]);
            lemma_asterisk_header_is_section_header(all[i as int]);
        }
        if skipping {
            if line_is_section_header(l) {
                skipping = false;
            } else {
                i = i + 1;
                assert forall|j: int| 0 <= j < i && #[trigger] is_asterisk_header(all[j]) implies j < i
                    - 1 by {}
            }
        } else if line_is_asterisk_header(l, &header) {
            assert(sec.deep_view() =~= sec@);
            out.push(sec.clone());
            replaced = true;
            skipping = true;
            i = i + 1;
            assert(out.deep_view() =~= old_out + seq![sec@]);
        } else {
            assert(l.deep_view() =~= l@);
            out.push(l.clone());
            i = i + 1;
            assert(out.deep_view() =~= old_out + seq![l@]);
        }
    }
    assert(all.skip(i as int) =~= Seq::<Seq<char>>::empty());
    assert(out.deep_view() =~= replace_sections(all, sec@, false));
    let ghost kept = out.deep_view();
    assert(replaced == has_asterisk_header(all));
    if !replaced {
        let n = out.len();
        if n > 0 {
            assert(kept[n - 1] =~= out[n - 1]@);
        }
        if n > 0 && out[n - 1].len() > 0 {
            let empty_line: Vec<char> = Vec::new();
            assert(empty_line.deep_view() =~= Seq::<char>::empty());
            out.push(empty_line);
            assert(out.deep_view() =~= kept.push(Seq::<char>::empty()));
        }
        let ghost padded = out.deep_view();
        assert(sec.deep_view() =~= sec@);
        out.push(sec.clone());
        assert(out.deep_view() =~= padded.push(sec@));
        assert(out.deep_view() =~= append_section(kept, sec@));
    }
    let mut r = String::new();
    push_joined(&mut r, &out);
    if chars.len() > 0 && chars[chars.len() - 1] == '\n' {
        push_char(&mut r, '\n');
    }
    assert(out.deep_view() == rewritten_lines(original@, section@));
    assert(r@ =~= rewritten(original@, section@));
    r
}

} // verus!

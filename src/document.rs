//! Loading a document from text and saving it back.
use vstd::prelude::*;

verus! {

/// The text of `ls` with a line break between consecutive lines.
pub open spec fn join_lines(ls: Seq<Seq<char>>) -> Seq<char>
    decreases ls.len(),
{
    if ls.len() == 0 {
        Seq::empty()
    } else if ls.len() == 1 {
        ls[0]
    } else {
        join_lines(ls.drop_last()) + seq!['\n'] + ls.last()
    }
}

/// The lines of `t`: the pieces between line breaks, always at least one.
pub open spec fn split_lines(t: Seq<char>) -> Seq<Seq<char>>
    decreases t.len(),
{
    if t.len() == 0 {
        seq![Seq::empty()]
    } else {
        let r = split_lines(t.drop_last());
        if t.last() == '\n' {
            r.push(Seq::empty())
        } else {
            r.update(r.len() - 1, r.last().push(t.last()))
        }
    }
}

/// No line of `ls` holds a line break.
pub open spec fn no_breaks(ls: Seq<Seq<char>>) -> bool {
    forall|i: int, j: int| 0 <= i < ls.len() && 0 <= j < ls[i].len() ==> ls[i][j] != '\n'
}

/// `c` is blank space that may precede a comment marker.
pub open spec fn is_blank(c: char) -> bool {
    c == ' ' || c == '\t'
}

/// The index of the first character of `l` at or after `i` that is not blank.
pub open spec fn skip_blank(l: Seq<char>, i: int) -> int
    decreases l.len() - i,
{
    if i < 0 || i >= l.len() {
        i
    } else if is_blank(l[i]) {
        skip_blank(l, i + 1)
    } else {
        i
    }
}

/// A comment line: after any blank space it starts with `//`.
pub open spec fn is_comment_line(l: Seq<char>) -> bool {
    let k = skip_blank(l, 0);
    k + 1 < l.len() && l[k] == '/' && l[k + 1] == '/'
}

/// The lines of `ls` that are kept on saving.
pub open spec fn kept_lines(ls: Seq<Seq<char>>, strip_comments: bool) -> Seq<Seq<char>> {
    if strip_comments {
        ls.filter(|l: Seq<char>| !is_comment_line(l))
    } else {
        ls
    }
}

/// The saved text of a document.
pub open spec fn saved_text(ls: Seq<Seq<char>>, strip_comments: bool) -> Seq<char> {
    join_lines(kept_lines(ls, strip_comments))
}

/// Whether `line` is a comment line.
pub fn is_comment(line: &Vec<char>) -> (r: bool)
    ensures
        r == is_comment_line(line@),
{
    let mut k: usize = 0;
    while k < line.len() && (line[k] == ' ' || line[k] == '\t')
        invariant
            k <= line@.len(),
            skip_blank(line@, k as int) == skip_blank(line@, 0),
        decreases line@.len() - k,
    {
        k = k + 1;
    }
    k < line.len() && k + 1 < line.len() && line[k] == '/' && line[k + 1] == '/'
}

/// Splits `text` into its lines at each line break.
pub fn load(text: &Vec<char>) -> (r: Vec<Vec<char>>)
    ensures
        r@.len() >= 1,
        Seq::new(r@.len(), |i: int| r@[i]@) == split_lines(text@),
{
    let mut done: Vec<Vec<char>> = Vec::new();
    let mut cur: Vec<char> = Vec::new();
    let mut i: usize = 0;
    while i < text.len()
        invariant
            i <= text@.len(),
            Seq::new(done@.len(), |k: int| done@[k]@).push(cur@) == split_lines(text@.subrange(0, i as int)),
        decreases text@.len() - i,
    {
        let ghost p = text@.subrange(0, i as int);
        let ghost q = text@.subrange(0, i + 1);
        assert(q.drop_last() =~= p);
        let ghost dv = Seq::new(done@.len(), |k: int| done@[k]@);
        let c = text[i];
        if c == '\n' {
            let ghost cv = cur@;
            done.push(cur);
            cur = Vec::new();
            assert(Seq::new(done@.len(), |k: int| done@[k]@) =~= dv.push(cv));
            assert(Seq::new(done@.len(), |k: int| done@[k]@).push(cur@) =~= split_lines(q));
        } else {
            cur.push(c);
            assert(Seq::new(done@.len(), |k: int| done@[k]@) =~= dv);
            assert(Seq::new(done@.len(), |k: int| done@[k]@).push(cur@) =~= split_lines(q));
        }
        i = i + 1;
    }
    assert(text@.subrange(0, text@.len() as int) =~= text@);
    done.push(cur);
    assert(Seq::new(done@.len(), |k: int| done@[k]@) =~= split_lines(text@));
    done
}

/// The text to save: the lines, without the comment lines where
/// `strip_comments` holds, joined with a line break between each two.
pub fn save(lines: &Vec<Vec<char>>, strip_comments: bool) -> (r: Vec<char>)
    ensures
        r@ == saved_text(Seq::new(lines@.len(), |i: int| lines@[i]@), strip_comments),
{
    let ghost ls = Seq::new(lines@.len(), |i: int| lines@[i]@);
    let ghost pred = |l: Seq<char>| !is_comment_line(l);
    let mut out: Vec<char> = Vec::new();
    let mut any = false;
    let mut i: usize = 0;
    while i < lines.len()
        invariant
            i <= lines@.len(),
            ls == Seq::new(lines@.len(), |i: int| lines@[i]@),
            out@ == join_lines(kept_lines(ls.subrange(0, i as int), strip_comments)),
            any == (kept_lines(ls.subrange(0, i as int), strip_comments).len() > 0),
        decreases lines@.len() - i,
    {
        let ghost before = ls.subrange(0, i as int);
        let ghost after = ls.subrange(0, i + 1);
        assert(after.drop_last() =~= before);
        assert(after.last() == lines@[i as int]@);
        if strip_comments {
            reveal(Seq::filter);
            assert(after.filter(pred) == if pred(after.last()) {
                before.filter(pred).push(after.last())
            } else {
                before.filter(pred)
            });
        }
        let keep = !strip_comments || !is_comment(&lines[i]);
        if keep {
            let ghost prev = kept_lines(before, strip_comments);
            assert(kept_lines(after, strip_comments) =~= prev.push(lines@[i as int]@));
            if any {
                out.push('\n');
            }
            let line = &lines[i];
            let ghost start = out@;
            let mut j: usize = 0;
            while j < line.len()
                invariant
                    j <= line@.len(),
                    out@ == start + line@.subrange(0, j as int),
                decreases line@.len() - j,
            {
                out.push(line[j]);
                j = j + 1;
                assert(out@ =~= start + line@.subrange(0, j as int));
            }
            assert(line@.subrange(0, line@.len() as int) =~= line@);
            assert(prev.push(lines@[i as int]@).drop_last() =~= prev);
            any = true;
        } else {
            assert(kept_lines(after, strip_comments) =~= kept_lines(before, strip_comments));
        }
        i = i + 1;
    }
    assert(ls.subrange(0, lines@.len() as int) =~= ls);
    out
}

proof fn lemma_split_nonempty(t: Seq<char>)
    ensures
        split_lines(t).len() >= 1,
    decreases t.len(),
{
    if t.len() > 0 {
        lemma_split_nonempty(t.drop_last());
    }
}

proof fn lemma_join_split(t: Seq<char>)
    ensures
        join_lines(split_lines(t)) == t,
    decreases t.len(),
{
    if t.len() > 0 {
        let p = t.drop_last();
        let r = split_lines(p);
        lemma_join_split(p);
        lemma_split_nonempty(p);
        if t.last() == '\n' {
            assert(r.push(Seq::empty()).drop_last() =~= r);
            assert(join_lines(r.push(Seq::empty())) =~= t);
        } else {
            let r2 = r.update(r.len() - 1, r.last().push(t.last()));
            if r.len() > 1 {
                assert(r2.drop_last() =~= r.drop_last());
            }
            assert(p.push(t.last()) =~= t);
            assert(join_lines(r2) =~= join_lines(r).push(t.last()));
        }
    }
}

proof fn lemma_split_single(a: Seq<char>)
    requires
        forall|j: int| 0 <= j < a.len() ==> a[j] != '\n',
    ensures
        split_lines(a) == seq![a],
    decreases a.len(),
{
    if a.len() > 0 {
        lemma_split_single(a.drop_last());
        assert(a.drop_last().push(a.last()) =~= a);
        assert(a[a.len() - 1] != '\n');
        let r = split_lines(a.drop_last());
        assert(split_lines(a) == r.update(r.len() - 1, r.last().push(a.last())));
        assert(r.update(r.len() - 1, r.last().push(a.last())) =~= seq![a]);
    } else {
        assert(a =~= Seq::<char>::empty());
    }
}

proof fn lemma_split_after_break(p: Seq<char>, a: Seq<char>)
    requires
        forall|j: int| 0 <= j < a.len() ==> a[j] != '\n',
    ensures
        split_lines(p + seq!['\n'] + a) == split_lines(p).push(a),
    decreases a.len(),
{
    let t = p + seq!['\n'] + a;
    if a.len() == 0 {
        assert(t.drop_last() =~= p);
        assert(t.last() == '\n');
        assert(a =~= Seq::<char>::empty());
    } else {
        let a2 = a.drop_last();
        lemma_split_after_break(p, a2);
        assert(a2.push(a.last()) =~= a);
        assert(a[a.len() - 1] != '\n');
        assert(t.last() == a.last());
        let r = split_lines(t.drop_last());
        assert(split_lines(t) == r.update(r.len() - 1, r.last().push(t.last())));
        assert(t.drop_last() =~= p + seq!['\n'] + a2);
        assert(split_lines(p).push(a2).update(split_lines(p).len() as int, a2.push(a.last()))
            =~= split_lines(p).push(a));
    }
}

proof fn lemma_split_join(ls: Seq<Seq<char>>)
    requires
        ls.len() >= 1,
        no_breaks(ls),
    ensures
        split_lines(join_lines(ls)) == ls,
    decreases ls.len(),
{
    if ls.len() == 1 {
        assert(forall|j: int| 0 <= j < ls[0].len() ==> ls[0][j] != '\n');
        lemma_split_single(ls[0]);
        assert(seq![ls[0]] =~= ls);
    } else {
        let rest = ls.drop_last();
        assert(no_breaks(rest));
        lemma_split_join(rest);
        assert(forall|j: int| 0 <= j < ls.last().len() ==> ls.last()[j] != '\n');
        lemma_split_after_break(join_lines(rest), ls.last());
        assert(rest.push(ls.last()) =~= ls);
    }
}

/// Saving a document without stripping comments and loading the text back
/// gives the same lines, and loading a text and saving it back without
/// stripping comments gives the same text, character for character.
pub proof fn save_load_round_trip(ls: Seq<Seq<char>>, t: Seq<char>)
    requires
        ls.len() >= 1,
        no_breaks(ls),
    ensures
        split_lines(saved_text(ls, false)) == ls,
        saved_text(split_lines(t), false) == t,
{
    lemma_split_join(ls);
    lemma_join_split(t);
}

/// Where no line is a comment, stripping comments changes nothing in the
/// saved text, so the round trip holds under that policy too.
pub proof fn strip_without_comments(ls: Seq<Seq<char>>)
    requires
        forall|i: int| 0 <= i < ls.len() ==> !is_comment_line(#[trigger] ls[i]),
    ensures
        saved_text(ls, true) == saved_text(ls, false),
    decreases ls.len(),
{
    let pred = |l: Seq<char>| !is_comment_line(l);
    if ls.len() > 0 {
        let rest = ls.drop_last();
        strip_without_comments(rest);
        reveal(Seq::filter);
        assert(ls.filter(pred) == rest.filter(pred).push(ls.last()));
        assert(rest.filter(pred) =~= rest) by {
            lemma_filter_all(rest);
        }
        assert(rest.push(ls.last()) =~= ls);
    } else {
        reveal(Seq::filter);
        assert(ls.filter(pred) =~= ls);
    }
}

proof fn lemma_filter_all(ls: Seq<Seq<char>>)
    requires
        forall|i: int| 0 <= i < ls.len() ==> !is_comment_line(#[trigger] ls[i]),
    ensures
        ls.filter(|l: Seq<char>| !is_comment_line(l)) == ls,
    decreases ls.len(),
{
    reveal(Seq::filter);
    let pred = |l: Seq<char>| !is_comment_line(l);
    if ls.len() > 0 {
        let rest = ls.drop_last();
        lemma_filter_all(rest);
        assert(rest.push(ls.last()) =~= ls);
    } else {
        assert(ls.filter(pred) =~= ls);
    }
}

} // verus!

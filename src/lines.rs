use vstd::prelude::*;

verus! {

/// The pieces of `s` between newline characters, as `str::split('\n')`
/// yields them: an empty text is one empty piece, and a text that ends in a
/// newline ends with an empty piece.
pub open spec fn split_lines(s: Seq<char>) -> Seq<Seq<char>>
    decreases s.len(),
{
    if s.len() == 0 {
        seq![seq![]]
    } else {
        let pre = split_lines(s.drop_last());
        if s.last() == '\n' {
            pre.push(seq![])
        } else {
            pre.update(pre.len() - 1, pre.last().push(s.last()))
        }
    }
}

/// The first occurrence of each line, in order of first occurrence.
pub open spec fn dedup(lines: Seq<Seq<char>>) -> Seq<Seq<char>>
    decreases lines.len(),
{
    if lines.len() == 0 {
        seq![]
    } else {
        let d = dedup(lines.drop_last());
        if d.contains(lines.last()) {
            d
        } else {
            d.push(lines.last())
        }
    }
}

/// The lines joined with a newline between each two.
pub open spec fn join_lines(lines: Seq<Seq<char>>) -> Seq<char>
    decreases lines.len(),
{
    if lines.len() == 0 {
        seq![]
    } else if lines.len() == 1 {
        lines[0]
    } else {
        join_lines(lines.drop_last()) + seq!['\n'] + lines.last()
    }
}

/// The text with each of its lines kept once, at its first occurrence.
pub open spec fn unified(s: Seq<char>) -> Seq<char> {
    join_lines(dedup(split_lines(s)))
}

/// The characters of each string.
pub open spec fn strs(v: Seq<String>) -> Seq<Seq<char>> {
    v.map_values(|s: String| s@)
}

pub proof fn lemma_split_lines_nonempty(s: Seq<char>)
    ensures
        split_lines(s).len() >= 1,
    decreases s.len(),
{
    if s.len() > 0 {
        lemma_split_lines_nonempty(s.drop_last());
    }
}

/// Text without a newline extends the last piece of a split.
pub proof fn lemma_split_lines_append_plain(s: Seq<char>, t: Seq<char>)
    requires
        !t.contains('\n'),
    ensures
        split_lines(s + t) == split_lines(s).update(
            split_lines(s).len() - 1,
            split_lines(s).last() + t,
        ),
    decreases t.len(),
{
    lemma_split_lines_nonempty(s);
    if t.len() == 0 {
        assert(s + t =~= s);
        assert(split_lines(s).last() + t =~= split_lines(s).last());
        assert(split_lines(s).update(split_lines(s).len() - 1, split_lines(s).last())
            =~= split_lines(s));
    } else {
        let u = t.drop_last();
        assert(!u.contains('\n')) by {
            if u.contains('\n') {
                let k = choose|k: int| 0 <= k < u.len() && u[k] == '\n';
                assert(t[k] == '\n');
            }
        }
        lemma_split_lines_append_plain(s, u);
        assert((s + t).drop_last() =~= s + u);
        assert((s + t).last() == t.last());
        assert(t.last() != '\n') by {
            assert(t[t.len() - 1] == t.last());
        }
        assert((split_lines(s).last() + u).push(t.last()) =~= split_lines(s).last() + t);
        let pre = split_lines(s + u);
        assert(pre.last() == split_lines(s).last() + u);
        assert(pre.update(pre.len() - 1, pre.last().push(t.last())) =~= split_lines(s).update(
            split_lines(s).len() - 1,
            split_lines(s).last() + t,
        ));
    }
}

/// Where the split of `s` ends with an empty piece, appending a line without
/// newline and then a newline adds that line before the empty piece.
pub proof fn lemma_split_lines_append_line(s: Seq<char>, lines: Seq<Seq<char>>, e: Seq<char>)
    requires
        split_lines(s) == lines.push(seq![]),
        !e.contains('\n'),
    ensures
        split_lines(s + e + seq!['\n']) == lines.push(e).push(seq![]),
{
    lemma_split_lines_append_plain(s, e);
    assert((s + e + seq!['\n']).drop_last() =~= s + e);
    assert(lines.push(seq![]).update(lines.len() as int, Seq::<char>::empty() + e) =~= lines.push(
        e,
    ));
}

/// Splitting a join gives back the lines where none holds a newline.
pub proof fn lemma_split_join(lines: Seq<Seq<char>>)
    requires
        lines.len() >= 1,
        forall|i: int| 0 <= i < lines.len() ==> !(#[trigger] lines[i]).contains('\n'),
    ensures
        split_lines(join_lines(lines)) == lines,
    decreases lines.len(),
{
    if lines.len() == 1 {
        lemma_split_lines_append_plain(seq![], lines[0]);
        assert(Seq::<char>::empty() + lines[0] =~= lines[0]);
        assert(seq![Seq::<char>::empty()].update(0, Seq::<char>::empty() + lines[0]) =~= lines);
    } else {
        let pre = lines.drop_last();
        assert forall|i: int| 0 <= i < pre.len() implies !(#[trigger] pre[i]).contains('\n') by {
            assert(pre[i] == lines[i]);
        }
        lemma_split_join(pre);
        let s = join_lines(pre) + seq!['\n'];
        assert(s.drop_last() =~= join_lines(pre));
        assert(split_lines(s) == pre.push(seq![]));
        assert(!lines.last().contains('\n')) by {
            assert(lines[lines.len() - 1] == lines.last());
        }
        lemma_split_lines_append_plain(s, lines.last());
        assert(pre.push(seq![]).update(pre.len() as int, Seq::<char>::empty() + lines.last())
            =~= lines);
    }
}

/// What deduplication keeps: the same lines, each once.
pub proof fn lemma_dedup(lines: Seq<Seq<char>>)
    ensures
        forall|x: Seq<char>| dedup(lines).contains(x) <==> lines.contains(x),
        dedup(lines).no_duplicates(),
        lines.len() >= 1 ==> dedup(lines).len() >= 1,
    decreases lines.len(),
{
    if lines.len() > 0 {
        let pre = lines.drop_last();
        lemma_dedup(pre);
        assert forall|x: Seq<char>| lines.contains(x) <==> (pre.contains(x) || x == lines.last()) by {
            if lines.contains(x) {
                let k = choose|k: int| 0 <= k < lines.len() && lines[k] == x;
                if k < pre.len() {
                    assert(pre[k] == x);
                }
            }
            if pre.contains(x) {
                let k = choose|k: int| 0 <= k < pre.len() && pre[k] == x;
                assert(lines[k] == x);
            }
            if x == lines.last() {
                assert(lines[lines.len() - 1] == x);
            }
        }
        let d = dedup(pre);
        if !d.contains(lines.last()) {
            assert forall|x: Seq<char>| d.push(lines.last()).contains(x) <==> (d.contains(x) || x
                == lines.last()) by {
                if d.push(lines.last()).contains(x) {
                    let k = choose|k: int|
                        0 <= k < d.push(lines.last()).len() && d.push(lines.last())[k] == x;
                    if k < d.len() {
                        assert(d[k] == x);
                    }
                }
                if d.contains(x) {
                    let k = choose|k: int| 0 <= k < d.len() && d[k] == x;
                    assert(d.push(lines.last())[k] == x);
                }
                if x == lines.last() {
                    assert(d.push(lines.last())[d.len() as int] == x);
                }
            }
            assert(d.push(lines.last()).no_duplicates()) by {
                assert forall|i: int, j: int|
                    0 <= i < d.len() + 1 && 0 <= j < d.len() + 1 && i != j implies d.push(
                    lines.last(),
                )[i] != d.push(lines.last())[j] by {
                    if i < d.len() && j == d.len() {
                        assert(d[i] == d.push(lines.last())[i]);
                    }
                    if j < d.len() && i == d.len() {
                        assert(d[j] == d.push(lines.last())[j]);
                    }
                }
            }
        }
    }
}

/// Appends `line` to `uniq` unless an equal line is already there.
pub(crate) fn push_unique(uniq: &mut Vec<String>, line: String)
    ensures
        strs(final(uniq)@) == if strs(old(uniq)@).contains(line@) {
            strs(old(uniq)@)
        } else {
            strs(old(uniq)@).push(line@)
        },
{
    let mut k: usize = 0;
    while k < uniq.len()
        invariant
            k <= uniq@.len(),
            forall|j: int| 0 <= j < k ==> uniq@[j]@ != line@,
        decreases uniq@.len() - k,
    {
        if uniq[k] == line {
            assert(strs(uniq@)[k as int] == line@);
            return;
        }
        k = k + 1;
    }
    assert(!strs(uniq@).contains(line@));
    let ghost before = uniq@;
    uniq.push(line);
    assert(strs(uniq@) =~= strs(before).push(uniq@.last()@));
}

/// Joins the lines with a newline between each two.
pub(crate) fn join_exec(lines: &Vec<String>) -> (r: String)
    ensures
        r@ == join_lines(strs(lines@)),
{
    let mut out = String::new();
    let mut k: usize = 0;
    while k < lines.len()
        invariant
            k <= lines@.len(),
            out@ == join_lines(strs(lines@).take(k as int)),
        decreases lines@.len() - k,
    {
        proof {
            reveal_strlit("\n");
        }
        assert(strs(lines@).take(k + 1).drop_last() =~= strs(lines@).take(k as int));
        if k > 0 {
            out.append("\n");
        }
        out.append(lines[k].as_str());
        assert(out@ =~= join_lines(strs(lines@).take(k + 1)));
        k = k + 1;
    }
    assert(strs(lines@).take(k as int) =~= strs(lines@));
    out
}

/// Keeps each newline-separated line of `contributors` once, at its first
/// occurrence, and joins the kept lines with newlines. Lines are compared
/// as whole strings, so the output is the same for the same input.
pub fn unify_contributors(contributors: String) -> (r: String)
    ensures
        r@ == unified(contributors@),
{
    let text = contributors.as_str();
    let n = text.unicode_len();
    let mut uniq: Vec<String> = Vec::new();
    let ghost mut done: Seq<Seq<char>> = seq![];
    let mut start: usize = 0;
    let mut i: usize = 0;
    assert(text@.take(0) =~= Seq::<char>::empty());
    assert(text@.subrange(0, 0) =~= Seq::<char>::empty());
    assert(strs(uniq@) =~= dedup(done));
    while i < n
        invariant
            start <= i <= n,
            n == text@.len(),
            text@ == contributors@,
            split_lines(text@.take(i as int)) == done.push(text@.subrange(start as int, i as int)),
            strs(uniq@) == dedup(done),
        decreases n - i,
    {
        let c = text.get_char(i);
        assert(text@.take(i + 1).drop_last() =~= text@.take(i as int));
        assert(text@.take(i + 1).last() == c);
        if c == '\n' {
            let line = String::from_str(text.substring_char(start, i));
            push_unique(&mut uniq, line);
            proof {
                assert(done.push(line@).drop_last() =~= done);
                done = done.push(line@);
                assert(text@.subrange(i + 1, i + 1) =~= Seq::<char>::empty());
            }
            start = i + 1;
        } else {
            proof {
                assert(text@.subrange(start as int, i + 1) =~= text@.subrange(
                    start as int,
                    i as int,
                ).push(c));
                let pre = done.push(text@.subrange(start as int, i as int));
                assert(pre.update(pre.len() - 1, pre.last().push(c)) =~= done.push(
                    text@.subrange(start as int, i + 1),
                ));
            }
        }
        i = i + 1;
    }
    let line = String::from_str(text.substring_char(start, n));
    push_unique(&mut uniq, line);
    proof {
        assert(done.push(line@).drop_last() =~= done);
        done = done.push(line@);
        assert(text@.take(n as int) =~= text@);
    }
    join_exec(&uniq)
}

} // verus!

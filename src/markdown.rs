use vstd::prelude::*;

use crate::lines::{
    dedup, join_exec, join_lines, lemma_dedup, lemma_split_join, lemma_split_lines_append_line,
    push_unique, split_lines, strs,
};
use crate::model::{views, PullRequest, PullRequestView};
use crate::response::{lemma_mapped_count, mapped, pull_request_count, ResponseData};
use crate::url::{format_url, lemma_rewrite_keeps_out, rewrite};

verus! {

/// The concatenation of the texts, in order.
pub open spec fn concat(parts: Seq<Seq<char>>) -> Seq<char>
    decreases parts.len(),
{
    if parts.len() == 0 {
        seq![]
    } else {
        concat(parts.drop_last()) + parts.last()
    }
}

/// The concatenation of `f` applied to each pull request, in order.
pub open spec fn lines_of(prs: Seq<PullRequestView>, f: spec_fn(PullRequestView) -> Seq<char>) -> Seq<
    char,
>
    decreases prs.len(),
{
    if prs.len() == 0 {
        seq![]
    } else {
        lines_of(prs.drop_last(), f) + f(prs.last())
    }
}

/// The bullet of a pull request, without its newline.
pub open spec fn pr_entry(p: PullRequestView) -> Seq<char> {
    "- ["@ + p.title + "]("@ + rewrite(p.url) + ")"@
}

/// The line of a pull request: `- [<title>](<rewritten url>)` and a newline.
pub open spec fn pr_line(p: PullRequestView) -> Seq<char> {
    pr_entry(p) + "\n"@
}

/// The bullet of a pull request's author, without its newline.
pub open spec fn contributor_entry(p: PullRequestView) -> Seq<char> {
    "- [@"@ + p.author.login + "]("@ + rewrite(p.author.url) + ")"@
}

/// The line of one label: `- <name>` and a newline.
pub open spec fn label_line(name: Seq<char>) -> Seq<char> {
    "- "@ + name + "\n"@
}

/// One line per label name, in order.
pub open spec fn label_block(names: Seq<Seq<char>>) -> Seq<char>
    decreases names.len(),
{
    if names.len() == 0 {
        seq![]
    } else {
        label_block(names.drop_last()) + label_line(names.last())
    }
}

/// The lines of a pull request's labels, in order.
pub open spec fn pr_label_lines(p: PullRequestView) -> Seq<char> {
    label_block(p.labels)
}

/// The pull-request section for these pull requests.
pub open spec fn pull_requests_md(prs: Seq<PullRequestView>) -> Seq<char> {
    lines_of(prs, |p: PullRequestView| pr_line(p))
}

/// The author bullets of these pull requests, one per pull request, before
/// deduplication.
pub open spec fn contributor_entries(prs: Seq<PullRequestView>) -> Seq<Seq<char>> {
    prs.map_values(|p: PullRequestView| contributor_entry(p))
}

/// The contributor section for these pull requests: the distinct author
/// bullets in order of first occurrence, joined by newlines.
pub open spec fn contributors_md(prs: Seq<PullRequestView>) -> Seq<char> {
    join_lines(dedup(contributor_entries(prs)))
}

/// The label section for these pull requests.
pub open spec fn labels_md(prs: Seq<PullRequestView>) -> Seq<char> {
    lines_of(prs, |p: PullRequestView| pr_label_lines(p))
}

/// Whether the text holds no newline.
pub open spec fn single_line(s: Seq<char>) -> bool {
    !s.contains('\n')
}

/// The text of a label bullet, without its newline.
pub open spec fn label_entry(name: Seq<char>) -> Seq<char> {
    "- "@ + name
}

/// The label names of all the pull requests, pull requests in order and
/// each one's labels in order.
pub open spec fn all_labels(prs: Seq<PullRequestView>) -> Seq<Seq<char>>
    decreases prs.len(),
{
    if prs.len() == 0 {
        seq![]
    } else {
        all_labels(prs.drop_last()) + prs.last().labels
    }
}

proof fn lemma_single_line_concat(a: Seq<char>, b: Seq<char>)
    requires
        single_line(a),
        single_line(b),
    ensures
        single_line(a + b),
{
    if (a + b).contains('\n') {
        let k = choose|k: int| 0 <= k < (a + b).len() && (a + b)[k] == '\n';
        if k < a.len() {
            assert(a[k] == '\n');
        } else {
            assert(b[k - a.len()] == '\n');
        }
    }
}

proof fn lemma_literals_single_line()
    ensures
        single_line("- ["@),
        single_line("- [@"@),
        single_line("]("@),
        single_line(")"@),
        single_line("- "@),
        "\n"@ == seq!['\n'],
{
    reveal_strlit("- [");
    reveal_strlit("- [@");
    reveal_strlit("](");
    reveal_strlit(")");
    reveal_strlit("- ");
    reveal_strlit("\n");
    assert("\n"@ =~= seq!['\n']);
}

/// A bullet whose parts hold no newline holds none.
proof fn lemma_bullet_single_line(head: Seq<char>, a: Seq<char>, b: Seq<char>)
    requires
        single_line(head),
        single_line(a),
        single_line(b),
    ensures
        single_line(head + a + "]("@ + b + ")"@),
{
    lemma_literals_single_line();
    lemma_single_line_concat(head, a);
    lemma_single_line_concat(head + a, "]("@);
    lemma_single_line_concat(head + a + "]("@, b);
    lemma_single_line_concat(head + a + "]("@ + b, ")"@);
}

/// Texts made of lines that each end in a newline split into those lines
/// and one empty piece after the last newline.
proof fn lemma_lines_of_split(
    prs: Seq<PullRequestView>,
    f: spec_fn(PullRequestView) -> Seq<char>,
    g: spec_fn(PullRequestView) -> Seq<char>,
)
    requires
        forall|i: int| 0 <= i < prs.len() ==> f(prs[i]) == g(prs[i]) + seq!['\n'],
        forall|i: int| 0 <= i < prs.len() ==> single_line(#[trigger] g(prs[i])),
    ensures
        split_lines(lines_of(prs, f)) == prs.map_values(g).push(seq![]),
    decreases prs.len(),
{
    if prs.len() == 0 {
        assert(prs.map_values(g).push(seq![]) =~= seq![Seq::<char>::empty()]);
    } else {
        let pre = prs.drop_last();
        assert forall|i: int| 0 <= i < pre.len() implies single_line(#[trigger] g(pre[i])) by {
            assert(pre[i] == prs[i]);
        }
        lemma_lines_of_split(pre, f, g);
        let last = prs.last();
        assert(g(prs[prs.len() - 1]) == g(last));
        assert(f(last) == g(last) + seq!['\n']);
        assert(lines_of(prs, f) =~= lines_of(pre, f) + g(last) + seq!['\n']);
        lemma_split_lines_append_line(lines_of(pre, f), pre.map_values(g), g(last));
        assert(pre.map_values(g).push(g(last)) =~= prs.map_values(g));
    }
}

/// Each mapped pull request gives one line of the pull-request section, in
/// order, and the section ends with a newline: split at newlines, it is the
/// pull requests' bullets and one empty piece. (Titles and URLs are taken
/// without newlines, which would break a bullet over two lines.)
pub proof fn lemma_pull_request_section_lines(prs: Seq<PullRequestView>)
    requires
        forall|i: int|
            0 <= i < prs.len() ==> single_line((#[trigger] prs[i]).title) && single_line(prs[i].url),
    ensures
        split_lines(pull_requests_md(prs)) == prs.map_values(|p: PullRequestView| pr_entry(p)).push(
            seq![],
        ),
{
    lemma_literals_single_line();
    let f = |p: PullRequestView| pr_line(p);
    let g = |p: PullRequestView| pr_entry(p);
    assert forall|i: int| 0 <= i < prs.len() implies single_line(#[trigger] g(prs[i])) by {
        lemma_rewrite_keeps_out(prs[i].url, '\n');
        lemma_bullet_single_line("- ["@, prs[i].title, rewrite(prs[i].url));
    }
    lemma_lines_of_split(prs, f, g);
}

/// For a response that maps, the pull-request section has exactly one line
/// per pull-request entry, summed over all milestones, in the order of the
/// milestones and then of their pull requests. (Titles and URLs are taken
/// without newlines.)
pub proof fn lemma_one_line_per_mapped_pull_request(r: ResponseData)
    requires
        mapped(r) is Ok,
        forall|i: int|
            0 <= i < mapped(r)->Ok_0.len() ==> single_line((#[trigger] mapped(r)->Ok_0[i]).title)
                && single_line(mapped(r)->Ok_0[i].url),
    ensures
        split_lines(pull_requests_md(mapped(r)->Ok_0)).len() == pull_request_count(r) + 1,
        forall|k: int|
            0 <= k < pull_request_count(r) ==> split_lines(pull_requests_md(mapped(r)->Ok_0))[k]
                == pr_entry(mapped(r)->Ok_0[k]),
        split_lines(pull_requests_md(mapped(r)->Ok_0)).last() == Seq::<char>::empty(),
{
    lemma_mapped_count(r);
    lemma_pull_request_section_lines(mapped(r)->Ok_0);
}

/// The contributor section split at newlines: the distinct author bullets,
/// each once, in order of first occurrence.
proof fn lemma_contributor_section_split(prs: Seq<PullRequestView>)
    requires
        prs.len() >= 1,
        forall|i: int|
            0 <= i < prs.len() ==> single_line((#[trigger] prs[i]).author.login) && single_line(
                prs[i].author.url,
            ),
    ensures
        split_lines(contributors_md(prs)) == dedup(contributor_entries(prs)),
        forall|x: Seq<char>|
            split_lines(contributors_md(prs)).contains(x) <==> contributor_entries(prs).contains(x),
        split_lines(contributors_md(prs)).no_duplicates(),
{
    let e = contributor_entries(prs);
    lemma_literals_single_line();
    assert forall|i: int| 0 <= i < e.len() implies single_line(#[trigger] e[i]) by {
        lemma_rewrite_keeps_out(prs[i].author.url, '\n');
        lemma_bullet_single_line("- [@"@, prs[i].author.login, rewrite(prs[i].author.url));
    }
    lemma_dedup(e);
    let d = dedup(e);
    assert forall|k: int| 0 <= k < d.len() implies !(#[trigger] d[k]).contains('\n') by {
        assert(d.contains(d[k]));
        assert(e.contains(d[k]));
        let j = choose|j: int| 0 <= j < e.len() && e[j] == d[k];
        assert(single_line(e[j]));
    }
    lemma_split_join(d);
}

/// Each author bullet appears exactly once among the lines of the
/// contributor section, however many pull requests share that author line.
/// (Logins and author URLs are taken without newlines.)
pub proof fn lemma_contributor_listed_once(prs: Seq<PullRequestView>, i: int)
    requires
        0 <= i < prs.len(),
        forall|j: int|
            0 <= j < prs.len() ==> single_line((#[trigger] prs[j]).author.login) && single_line(
                prs[j].author.url,
            ),
    ensures
        split_lines(contributors_md(prs)).contains(contributor_entry(prs[i])),
        forall|j: int, k: int|
            0 <= j < split_lines(contributors_md(prs)).len() && 0 <= k < split_lines(
                contributors_md(prs),
            ).len() && split_lines(contributors_md(prs))[j] == contributor_entry(prs[i])
                && split_lines(contributors_md(prs))[k] == contributor_entry(prs[i]) ==> j == k,
{
    lemma_contributor_section_split(prs);
    let e = contributor_entries(prs);
    assert(e[i] == contributor_entry(prs[i]));
    assert(e.contains(contributor_entry(prs[i])));
}

/// Authors that share a login but whose URLs rewrite differently give two
/// distinct lines of the contributor section: lines are compared whole, not
/// by login. (Logins and author URLs are taken without newlines.)
pub proof fn lemma_contributors_keyed_by_line(prs: Seq<PullRequestView>, i: int, j: int)
    requires
        0 <= i < prs.len(),
        0 <= j < prs.len(),
        prs[i].author.login == prs[j].author.login,
        rewrite(prs[i].author.url) != rewrite(prs[j].author.url),
        forall|k: int|
            0 <= k < prs.len() ==> single_line((#[trigger] prs[k]).author.login) && single_line(
                prs[k].author.url,
            ),
    ensures
        contributor_entry(prs[i]) != contributor_entry(prs[j]),
        split_lines(contributors_md(prs)).contains(contributor_entry(prs[i])),
        split_lines(contributors_md(prs)).contains(contributor_entry(prs[j])),
{
    lemma_contributor_listed_once(prs, i);
    lemma_contributor_listed_once(prs, j);
    let head = "- [@"@ + prs[i].author.login + "]("@;
    let a = rewrite(prs[i].author.url);
    let b = rewrite(prs[j].author.url);
    assert(contributor_entry(prs[i]) =~= head + a + ")"@);
    assert(contributor_entry(prs[j]) =~= head + b + ")"@);
    if contributor_entry(prs[i]) == contributor_entry(prs[j]) {
        reveal_strlit(")");
        assert((head + a + ")"@).len() == (head + b + ")"@).len());
        assert((head + a + ")"@).subrange(head.len() as int, (head.len() + a.len()) as int) =~= a);
        assert((head + b + ")"@).subrange(head.len() as int, (head.len() + b.len()) as int) =~= b);
    }
}

proof fn lemma_label_block_split(s: Seq<char>, lines: Seq<Seq<char>>, names: Seq<Seq<char>>)
    requires
        split_lines(s) == lines.push(seq![]),
        forall|i: int| 0 <= i < names.len() ==> single_line(#[trigger] names[i]),
    ensures
        split_lines(s + label_block(names)) == (lines + names.map_values(
            |n: Seq<char>| label_entry(n),
        )).push(seq![]),
    decreases names.len(),
{
    lemma_literals_single_line();
    if names.len() == 0 {
        assert(s + label_block(names) =~= s);
        assert(lines + names.map_values(|n: Seq<char>| label_entry(n)) =~= lines);
    } else {
        let pre = names.drop_last();
        assert forall|i: int| 0 <= i < pre.len() implies single_line(#[trigger] pre[i]) by {
            assert(pre[i] == names[i]);
        }
        lemma_label_block_split(s, lines, pre);
        let n = names.last();
        assert(single_line(n)) by {
            assert(names[names.len() - 1] == n);
        }
        lemma_single_line_concat("- "@, n);
        assert(s + label_block(names) =~= s + label_block(pre) + label_entry(n) + seq!['\n']);
        lemma_split_lines_append_line(
            s + label_block(pre),
            lines + pre.map_values(|n: Seq<char>| label_entry(n)),
            label_entry(n),
        );
        assert((lines + pre.map_values(|n: Seq<char>| label_entry(n))).push(label_entry(n)) =~= lines
            + names.map_values(|n: Seq<char>| label_entry(n)));
    }
}

/// The label section has one line per label of each pull request, pull
/// requests in order and each one's labels in order, with no
/// deduplication: a name on three pull requests gives three lines. (Names
/// are taken without newlines.)
pub proof fn lemma_label_section_lines(prs: Seq<PullRequestView>)
    requires
        forall|i: int| 0 <= i < all_labels(prs).len() ==> single_line(#[trigger] all_labels(prs)[i]),
    ensures
        split_lines(labels_md(prs)) == all_labels(prs).map_values(|n: Seq<char>| label_entry(n)).push(
            seq![],
        ),
    decreases prs.len(),
{
    if prs.len() == 0 {
        assert(all_labels(prs).map_values(|n: Seq<char>| label_entry(n)).push(seq![]) =~= seq![
            Seq::<char>::empty(),
        ]);
    } else {
        let pre = prs.drop_last();
        let last = prs.last();
        assert forall|i: int| 0 <= i < all_labels(pre).len() implies single_line(
            #[trigger] all_labels(pre)[i],
        ) by {
            assert(all_labels(prs)[i] == all_labels(pre)[i]);
        }
        lemma_label_section_lines(pre);
        assert forall|i: int| 0 <= i < last.labels.len() implies single_line(
            #[trigger] last.labels[i],
        ) by {
            assert(all_labels(prs)[all_labels(pre).len() + i] == last.labels[i]);
        }
        lemma_label_block_split(
            labels_md(pre),
            all_labels(pre).map_values(|n: Seq<char>| label_entry(n)),
            last.labels,
        );
        assert(all_labels(pre).map_values(|n: Seq<char>| label_entry(n)) + last.labels.map_values(
            |n: Seq<char>| label_entry(n),
        ) =~= all_labels(prs).map_values(|n: Seq<char>| label_entry(n)));
    }
}

/// How many times `x` occurs in `s`.
pub open spec fn occurrences(s: Seq<Seq<char>>, x: Seq<char>) -> nat
    decreases s.len(),
{
    if s.len() == 0 {
        0
    } else {
        occurrences(s.drop_last(), x) + if s.last() == x {
            1nat
        } else {
            0nat
        }
    }
}

/// How many times the label `name` is applied, summed over the pull
/// requests.
pub open spec fn label_uses(prs: Seq<PullRequestView>, name: Seq<char>) -> nat
    decreases prs.len(),
{
    if prs.len() == 0 {
        0
    } else {
        label_uses(prs.drop_last(), name) + occurrences(prs.last().labels, name)
    }
}

proof fn lemma_occurrences_append(a: Seq<Seq<char>>, b: Seq<Seq<char>>, x: Seq<char>)
    ensures
        occurrences(a + b, x) == occurrences(a, x) + occurrences(b, x),
    decreases b.len(),
{
    if b.len() == 0 {
        assert(a + b =~= a);
    } else {
        assert((a + b).drop_last() =~= a + b.drop_last());
        assert((a + b).last() == b.last());
        lemma_occurrences_append(a, b.drop_last(), x);
    }
}

proof fn lemma_occurrences_of_label_entries(names: Seq<Seq<char>>, n: Seq<char>)
    ensures
        occurrences(names.map_values(|m: Seq<char>| label_entry(m)), label_entry(n))
            == occurrences(names, n),
    decreases names.len(),
{
    if names.len() > 0 {
        let pre = names.drop_last();
        assert(names.map_values(|m: Seq<char>| label_entry(m)).drop_last() =~= pre.map_values(
            |m: Seq<char>| label_entry(m),
        ));
        lemma_occurrences_of_label_entries(pre, n);
        let last = names.last();
        assert(names.map_values(|m: Seq<char>| label_entry(m)).last() == label_entry(last));
        if label_entry(last) == label_entry(n) {
            let k = ("- "@).len() as int;
            assert(label_entry(last).skip(k) =~= last);
            assert(label_entry(n).skip(k) =~= n);
        }
    }
}

proof fn lemma_all_labels_uses(prs: Seq<PullRequestView>, n: Seq<char>)
    ensures
        occurrences(all_labels(prs), n) == label_uses(prs, n),
    decreases prs.len(),
{
    if prs.len() > 0 {
        lemma_all_labels_uses(prs.drop_last(), n);
        lemma_occurrences_append(all_labels(prs.drop_last()), prs.last().labels, n);
    }
}

/// The line `- <name>` occurs in the label section exactly as many times as
/// the name is applied over the pull requests: a name on three pull
/// requests, once each, gives three lines. (Names are taken without
/// newlines.)
pub proof fn lemma_label_line_count(prs: Seq<PullRequestView>, name: Seq<char>)
    requires
        forall|i: int| 0 <= i < all_labels(prs).len() ==> single_line(#[trigger] all_labels(prs)[i]),
    ensures
        occurrences(split_lines(labels_md(prs)), label_entry(name)) == label_uses(prs, name),
{
    lemma_label_section_lines(prs);
    let entries = all_labels(prs).map_values(|m: Seq<char>| label_entry(m));
    reveal_strlit("- ");
    assert(label_entry(name).len() >= 2);
    assert(entries.push(seq![]).drop_last() =~= entries);
    lemma_occurrences_of_label_entries(all_labels(prs), name);
    lemma_all_labels_uses(prs, name);
}

proof fn lemma_lines_of_append(
    a: Seq<PullRequestView>,
    b: Seq<PullRequestView>,
    f: spec_fn(PullRequestView) -> Seq<char>,
)
    ensures
        lines_of(a + b, f) == lines_of(a, f) + lines_of(b, f),
    decreases b.len(),
{
    if b.len() == 0 {
        assert(a + b =~= a);
        assert(lines_of(a, f) + lines_of(b, f) =~= lines_of(a, f));
    } else {
        assert((a + b).drop_last() =~= a + b.drop_last());
        lemma_lines_of_append(a, b.drop_last(), f);
        assert((a + b).last() == b.last());
        assert(lines_of(a + b, f) =~= lines_of(a, f) + lines_of(b, f));
    }
}

/// A pull request without labels adds nothing to the label section.
pub proof fn lemma_unlabelled_adds_no_label_line(prs: Seq<PullRequestView>, i: int)
    requires
        0 <= i < prs.len(),
        prs[i].labels.len() == 0,
    ensures
        labels_md(prs) == labels_md(prs.remove(i)),
{
    let f = |p: PullRequestView| pr_label_lines(p);
    let a = prs.take(i);
    let b = prs.skip(i + 1);
    assert(prs =~= a + seq![prs[i]] + b);
    assert(prs.remove(i) =~= a + b);
    lemma_lines_of_append(a + seq![prs[i]], b, f);
    lemma_lines_of_append(a, seq![prs[i]], f);
    lemma_lines_of_append(a, b, f);
    assert(seq![prs[i]].drop_last() =~= Seq::<PullRequestView>::empty());
    assert(seq![prs[i]].last() == prs[i]);
    assert(label_block(prs[i].labels) =~= Seq::<char>::empty());
    assert(f(prs[i]) =~= Seq::<char>::empty());
    assert(lines_of(seq![prs[i]].drop_last(), f) =~= Seq::<char>::empty());
    assert(lines_of(seq![prs[i]], f) =~= Seq::<char>::empty());
}

/// The three sections depend on the pull requests' values alone: formatting
/// the same pull requests twice gives the same text, byte for byte, for
/// each section.
pub proof fn lemma_sections_repeatable(a: Seq<PullRequest>, b: Seq<PullRequest>)
    requires
        views(a) == views(b),
    ensures
        pull_requests_md(views(a)) == pull_requests_md(views(b)),
        contributors_md(views(a)) == contributors_md(views(b)),
        labels_md(views(a)) == labels_md(views(b)),
{
}

proof fn lemma_concat_is_lines_of(
    parts: Seq<Seq<char>>,
    prs: Seq<PullRequestView>,
    f: spec_fn(PullRequestView) -> Seq<char>,
)
    requires
        parts.len() == prs.len(),
        forall|i: int| 0 <= i < parts.len() ==> parts[i] == f(prs[i]),
    ensures
        concat(parts) == lines_of(prs, f),
    decreases parts.len(),
{
    if parts.len() > 0 {
        lemma_concat_is_lines_of(parts.drop_last(), prs.drop_last(), f);
    }
}

/// Concatenates what `format_fn` gives for each pull request, in order.
pub fn format_items_to_md<F>(pull_requests: &[PullRequest], format_fn: F) -> (r: String) where
    F: Fn(&PullRequest) -> String,

    requires
        forall|i: int| 0 <= i < pull_requests@.len() ==> format_fn.requires((&pull_requests@[i],)),
    ensures
        exists|outs: Seq<String>|
            {
                &&& outs.len() == pull_requests@.len()
                &&& forall|i: int|
                    0 <= i < outs.len() ==> format_fn.ensures((&pull_requests@[i],), #[trigger] outs[i])
                &&& r@ == concat(strs(outs))
            },
{
    let mut out = String::new();
    let ghost mut outs: Seq<String> = seq![];
    let mut i: usize = 0;
    assert(strs(outs) =~= seq![]);
    while i < pull_requests.len()
        invariant
            i <= pull_requests@.len(),
            forall|j: int|
                0 <= j < pull_requests@.len() ==> format_fn.requires((&pull_requests@[j],)),
            outs.len() == i,
            forall|j: int|
                0 <= j < i ==> format_fn.ensures((&pull_requests@[j],), #[trigger] outs[j]),
            out@ == concat(strs(outs)),
        decreases pull_requests@.len() - i,
    {
        let s = format_fn(&pull_requests[i]);
        out.append(s.as_str());
        proof {
            let before = outs;
            outs = outs.push(s);
            assert(strs(outs).drop_last() =~= strs(before));
        }
        i = i + 1;
    }
    out
}

/// The labels of one pull request, one `- <name>` line each, in order.
fn format_labels_of(pr: &PullRequest) -> (r: String)
    ensures
        r@ == pr_label_lines(pr@),
{
    let mut out = String::new();
    let mut k: usize = 0;
    while k < pr.labels.len()
        invariant
            k <= pr.labels@.len(),
            out@ == label_block(pr@.labels.take(k as int)),
        decreases pr.labels@.len() - k,
    {
        assert(pr@.labels.take(k + 1).drop_last() =~= pr@.labels.take(k as int));
        out.append("- ");
        out.append(pr.labels[k].name.as_str());
        out.append("\n");
        assert(out@ =~= label_block(pr@.labels.take(k + 1)));
        k = k + 1;
    }
    assert(pr@.labels.take(k as int) =~= pr@.labels);
    out
}

/// One `- [<title>](<link>)` line per pull request, in order, where the
/// link is the rewritten pull-request URL.
pub fn format_pull_requests_to_md(pull_requests: &[PullRequest]) -> (r: String)
    ensures
        r@ == pull_requests_md(views(pull_requests@)),
{
    let line = |pr: &PullRequest| -> (r: String)
        ensures
            r@ == pr_line(pr@),
        {
            let mut s = String::from_str("- [");
            s.append(pr.title.as_str());
            s.append("](");
            let link = format_url(pr.url.clone());
            s.append(link.as_str());
            s.append(")");
            s.append("\n");
            s
        };
    let r = format_items_to_md(pull_requests, line);
    proof {
        let outs = choose|outs: Seq<String>|
            {
                &&& outs.len() == pull_requests@.len()
                &&& forall|i: int|
                    0 <= i < outs.len() ==> line.ensures((&pull_requests@[i],), #[trigger] outs[i])
                &&& r@ == concat(strs(outs))
            };
        assert forall|i: int| 0 <= i < outs.len() implies strs(outs)[i] == (|p: PullRequestView|
            pr_line(p))(views(pull_requests@)[i]) by {
            assert(line.ensures((&pull_requests@[i],), outs[i]));
        }
        lemma_concat_is_lines_of(strs(outs), views(pull_requests@), |p: PullRequestView| pr_line(p));
    }
    r
}

/// The author bullet of one pull request: `- [@<login>](<link>)`, where
/// the link is the rewritten author URL.
fn contributor_bullet(pr: &PullRequest) -> (r: String)
    ensures
        r@ == contributor_entry(pr@),
{
    let mut s = String::from_str("- [@");
    s.append(pr.author.login.as_str());
    s.append("](");
    let link = format_url(pr.author.url.clone());
    s.append(link.as_str());
    s.append(")");
    s
}

/// The distinct author bullets `- [@<login>](<link>)`, where the link is
/// the rewritten author URL, in order of first occurrence and joined by
/// newlines, with no newline after the last. Bullets are compared as whole
/// strings, not by login.
pub fn format_contributors_to_md(pull_requests: &[PullRequest]) -> (r: String)
    ensures
        r@ == contributors_md(views(pull_requests@)),
{
    let ghost entries = contributor_entries(views(pull_requests@));
    let mut uniq: Vec<String> = Vec::new();
    let mut i: usize = 0;
    assert(entries.take(0) =~= Seq::<Seq<char>>::empty());
    assert(strs(uniq@) =~= Seq::<Seq<char>>::empty());
    while i < pull_requests.len()
        invariant
            i <= pull_requests@.len(),
            entries == contributor_entries(views(pull_requests@)),
            strs(uniq@) == dedup(entries.take(i as int)),
        decreases pull_requests@.len() - i,
    {
        let bullet = contributor_bullet(&pull_requests[i]);
        assert(entries.take(i + 1).drop_last() =~= entries.take(i as int));
        assert(entries.take(i + 1).last() == bullet@);
        push_unique(&mut uniq, bullet);
        i = i + 1;
    }
    assert(entries.take(i as int) =~= entries);
    join_exec(&uniq)
}

/// One `- <name>` line per label of each pull request, pull requests in
/// order and each one's labels in order; names are not deduplicated.
pub fn format_labels_to_md(pull_requests: &[PullRequest]) -> (r: String)
    ensures
        r@ == labels_md(views(pull_requests@)),
{
    let block = |pr: &PullRequest| -> (r: String)
        ensures
            r@ == pr_label_lines(pr@),
        { format_labels_of(pr) };
    let r = format_items_to_md(pull_requests, block);
    proof {
        let outs = choose|outs: Seq<String>|
            {
                &&& outs.len() == pull_requests@.len()
                &&& forall|i: int|
                    0 <= i < outs.len() ==> block.ensures((&pull_requests@[i],), #[trigger] outs[i])
                &&& r@ == concat(strs(outs))
            };
        assert forall|i: int| 0 <= i < outs.len() implies strs(outs)[i] == (|p: PullRequestView|
            pr_label_lines(p))(views(pull_requests@)[i]) by {
            assert(block.ensures((&pull_requests@[i],), outs[i]));
        }
        lemma_concat_is_lines_of(
            strs(outs),
            views(pull_requests@),
            |p: PullRequestView| pr_label_lines(p),
        );
    }
    r
}

/// The three sections for these pull requests: pull requests,
/// contributors and labels.
pub fn get_changelog_info(pull_requests: &[PullRequest]) -> (r: (String, String, String))
    ensures
        r.0@ == pull_requests_md(views(pull_requests@)),
        r.1@ == contributors_md(views(pull_requests@)),
        r.2@ == labels_md(views(pull_requests@)),
{
    let pull_requests_md = format_pull_requests_to_md(pull_requests);
    let contributors = format_contributors_to_md(pull_requests);
    let labels = format_labels_to_md(pull_requests);
    (pull_requests_md, contributors, labels)
}

} // verus!

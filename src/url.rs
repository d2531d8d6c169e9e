use vstd::prelude::*;

verus! {

/// `s` with every occurrence of `pat` replaced by `rep`, scanning from the
/// left and resuming after each replaced occurrence.
pub open spec fn replace_all(s: Seq<char>, pat: Seq<char>, rep: Seq<char>) -> Seq<char>
    decreases s.len(),
{
    if pat.len() == 0 || s.len() < pat.len() {
        s
    } else if s.take(pat.len() as int) == pat {
        rep + replace_all(s.skip(pat.len() as int), pat, rep)
    } else {
        seq![s[0]] + replace_all(s.skip(1), pat, rep)
    }
}

/// The human-facing form of an API URL: `api.`, then `repos/`, then
/// `users/` removed wherever they occur.
pub open spec fn rewrite(url: Seq<char>) -> Seq<char> {
    replace_all(
        replace_all(replace_all(url, "api."@, seq![]), "repos/"@, seq![]),
        "users/"@,
        seq![],
    )
}

/// Replacing by text without `c` adds no `c`.
pub proof fn lemma_replace_all_keeps_out(s: Seq<char>, pat: Seq<char>, rep: Seq<char>, c: char)
    requires
        !s.contains(c),
        !rep.contains(c),
    ensures
        !replace_all(s, pat, rep).contains(c),
    decreases s.len(),
{
    if pat.len() == 0 || s.len() < pat.len() {
    } else if s.take(pat.len() as int) == pat {
        let rest = s.skip(pat.len() as int);
        assert(!rest.contains(c)) by {
            if rest.contains(c) {
                let k = choose|k: int| 0 <= k < rest.len() && rest[k] == c;
                assert(s[k + pat.len()] == c);
            }
        }
        lemma_replace_all_keeps_out(rest, pat, rep, c);
        let r = replace_all(s, pat, rep);
        assert(r == rep + replace_all(rest, pat, rep));
        if r.contains(c) {
            let k = choose|k: int| 0 <= k < r.len() && r[k] == c;
            if k < rep.len() {
                assert(rep[k] == c);
            } else {
                assert(replace_all(rest, pat, rep)[k - rep.len()] == c);
            }
        }
    } else {
        let rest = s.skip(1);
        assert(!rest.contains(c)) by {
            if rest.contains(c) {
                let k = choose|k: int| 0 <= k < rest.len() && rest[k] == c;
                assert(s[k + 1] == c);
            }
        }
        lemma_replace_all_keeps_out(rest, pat, rep, c);
        let r = replace_all(s, pat, rep);
        if r.contains(c) {
            let k = choose|k: int| 0 <= k < r.len() && r[k] == c;
            if k == 0 {
                assert(s[0] == c);
            } else {
                assert(replace_all(rest, pat, rep)[k - 1] == c);
            }
        }
    }
}

/// The rewrite adds no character: what is absent from the URL is absent
/// from its rewrite.
pub proof fn lemma_rewrite_keeps_out(url: Seq<char>, c: char)
    requires
        !url.contains(c),
    ensures
        !rewrite(url).contains(c),
{
    let empty = Seq::<char>::empty();
    lemma_replace_all_keeps_out(url, "api."@, empty, c);
    lemma_replace_all_keeps_out(replace_all(url, "api."@, empty), "repos/"@, empty, c);
    lemma_replace_all_keeps_out(
        replace_all(replace_all(url, "api."@, empty), "repos/"@, empty),
        "users/"@,
        empty,
        c,
    );
}

/// Whether `pat` occurs in `s` at character position `i`.
fn occurs_at(s: &str, i: usize, pat: &str, m: usize) -> (r: bool)
    requires
        i + m <= s@.len() <= usize::MAX,
        m == pat@.len(),
    ensures
        r == (s@.subrange(i as int, i + m) == pat@),
{
    let mut j: usize = 0;
    while j < m
        invariant
            j <= m,
            i + m <= s@.len() <= usize::MAX,
            m == pat@.len(),
            s@.subrange(i as int, i + j) == pat@.take(j as int),
        decreases m - j,
    {
        if s.get_char(i + j) != pat.get_char(j) {
            assert(s@.subrange(i as int, i + m)[j as int] != pat@[j as int]);
            return false;
        }
        assert(s@.subrange(i as int, i + j + 1) =~= pat@.take(j + 1));
        j = j + 1;
    }
    assert(pat@.take(m as int) =~= pat@);
    true
}

/// Replaces every occurrence of the non-empty `pat` in `s` by `rep`.
fn replace_all_exec(s: &str, pat: &str, rep: &str) -> (r: String)
    requires
        pat@.len() > 0,
    ensures
        r@ == replace_all(s@, pat@, rep@),
{
    let n = s.unicode_len();
    let m = pat.unicode_len();
    let mut out = String::new();
    let mut i: usize = 0;
    assert(s@.skip(0) =~= s@);
    while i < n
        invariant
            i <= n,
            n == s@.len(),
            m == pat@.len(),
            m > 0,
            out@ + replace_all(s@.skip(i as int), pat@, rep@) == replace_all(s@, pat@, rep@),
        decreases n - i,
    {
        let ghost rest = s@.skip(i as int);
        if m <= n - i && occurs_at(s, i, pat, m) {
            assert(rest.take(m as int) =~= s@.subrange(i as int, i + m));
            assert(rest.skip(m as int) =~= s@.skip(i + m));
            out.append(rep);
            i = i + m;
        } else {
            if m <= n - i {
                assert(rest.take(m as int) =~= s@.subrange(i as int, i + m));
            }
            assert(rest.skip(1) =~= s@.skip(i + 1));
            assert(rest =~= seq![s@[i as int]] + rest.skip(1));
            out.append(s.substring_char(i, i + 1));
            i = i + 1;
        }
        assert(out@ + replace_all(s@.skip(i as int), pat@, rep@) == replace_all(s@, pat@, rep@));
    }
    assert(out@ + replace_all(s@.skip(i as int), pat@, rep@) =~= out@);
    out
}

/// Turns an API URL into the human-facing link: removes every `api.`, then
/// every `repos/`, then every `users/` (a fixed textual transform, not URL
/// parsing).
pub fn format_url(url: String) -> (r: String)
    ensures
        r@ == rewrite(url@),
{
    proof {
        reveal_strlit("api.");
        reveal_strlit("repos/");
        reveal_strlit("users/");
        reveal_strlit("");
    }
    assert(""@ =~= Seq::<char>::empty());
    let no_api = replace_all_exec(url.as_str(), "api.", "");
    let no_repos = replace_all_exec(no_api.as_str(), "repos/", "");
    replace_all_exec(no_repos.as_str(), "users/", "")
}

} // verus!

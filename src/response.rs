use vstd::prelude::*;

use crate::model::{views, Author, Label, PullRequest, PullRequestView, AuthorView};

verus! {

/// A label entry of a pull-request node.
pub struct LabelNode {
    pub name: String,
}

/// The `labels` connection of a pull-request node.
pub struct LabelConnection {
    pub nodes: Option<Vec<Option<LabelNode>>>,
}

/// The `author` object of a pull-request node.
pub struct AuthorNode {
    pub login: String,
    pub url: String,
}

/// A pull-request node of the response.
pub struct PullRequestNode {
    pub id: String,
    pub title: String,
    pub url: String,
    pub number: i64,
    pub author: Option<AuthorNode>,
    pub labels: Option<LabelConnection>,
}

/// The `pullRequests` connection of a milestone node.
pub struct PullRequestConnection {
    pub nodes: Option<Vec<Option<PullRequestNode>>>,
}

/// A milestone node of the response.
pub struct MilestoneNode {
    pub pull_requests: PullRequestConnection,
}

/// The `milestones` connection of the repository.
pub struct MilestoneConnection {
    pub total_count: i64,
    pub nodes: Option<Vec<Option<MilestoneNode>>>,
}

/// The `repository` object of the response.
pub struct Repository {
    pub milestones: Option<MilestoneConnection>,
}

/// The data of a milestone query's response; every object and list in it
/// may be null.
pub struct ResponseData {
    pub repository: Option<Repository>,
}

/// Why a response could not be mapped to pull requests.
pub enum MappingError {
    /// A required node was null; holds its path in the response.
    MissingField(String),
    /// A pull request had no author; holds the pull request's id.
    MissingAuthor(String),
}

/// Abstract value of a [`MappingError`].
pub ghost enum MappingFault {
    MissingField(Seq<char>),
    MissingAuthor(Seq<char>),
}

impl View for MappingError {
    type V = MappingFault;

    open spec fn view(&self) -> MappingFault {
        match self {
            MappingError::MissingField(p) => MappingFault::MissingField(p@),
            MappingError::MissingAuthor(id) => MappingFault::MissingAuthor(id@),
        }
    }
}

pub open spec fn repository_path() -> Seq<char> {
    "repository"@
}

pub open spec fn milestones_path() -> Seq<char> {
    "repository.milestones"@
}

pub open spec fn milestone_node_path() -> Seq<char> {
    "repository.milestones.nodes[]"@
}

pub open spec fn pull_request_node_path() -> Seq<char> {
    "repository.milestones.nodes[].pullRequests.nodes[]"@
}

/// The names of the non-null label entries, in order.
pub open spec fn label_names(entries: Seq<Option<LabelNode>>) -> Seq<Seq<char>>
    decreases entries.len(),
{
    if entries.len() == 0 {
        seq![]
    } else {
        let rest = label_names(entries.drop_last());
        match entries.last() {
            Some(l) => rest.push(l.name@),
            None => rest,
        }
    }
}

/// The label names of a pull-request node: none where its `labels` object
/// or that object's list is null.
pub open spec fn labels_of(n: PullRequestNode) -> Seq<Seq<char>> {
    match n.labels {
        Some(c) => match c.nodes {
            Some(v) => label_names(v@),
            None => seq![],
        },
        None => seq![],
    }
}

/// The pull request that a node maps to, or the missing author.
pub open spec fn map_node(n: PullRequestNode) -> Result<PullRequestView, MappingFault> {
    match n.author {
        None => Err(MappingFault::MissingAuthor(n.id@)),
        Some(a) => Ok(
            PullRequestView {
                id: n.id@,
                title: n.title@,
                url: n.url@,
                number: n.number,
                labels: labels_of(n),
                author: AuthorView { login: a.login@, url: a.url@ },
            },
        ),
    }
}

/// Maps the pull-request entries of one milestone in order; the first
/// failure, a null entry or a missing author, is the result.
pub open spec fn map_entries(entries: Seq<Option<PullRequestNode>>) -> Result<
    Seq<PullRequestView>,
    MappingFault,
>
    decreases entries.len(),
{
    if entries.len() == 0 {
        Ok(seq![])
    } else {
        match map_entries(entries.drop_last()) {
            Err(e) => Err(e),
            Ok(prefix) => match entries.last() {
                None => Err(MappingFault::MissingField(pull_request_node_path())),
                Some(n) => match map_node(n) {
                    Err(e) => Err(e),
                    Ok(p) => Ok(prefix.push(p)),
                },
            },
        }
    }
}

/// The pull requests of one milestone; a null list holds none.
pub open spec fn map_milestone_spec(m: MilestoneNode) -> Result<Seq<PullRequestView>, MappingFault> {
    match m.pull_requests.nodes {
        None => Ok(seq![]),
        Some(v) => map_entries(v@),
    }
}

/// Flattens the milestone entries in order; the first failure is the result.
pub open spec fn map_milestones(entries: Seq<Option<MilestoneNode>>) -> Result<
    Seq<PullRequestView>,
    MappingFault,
>
    decreases entries.len(),
{
    if entries.len() == 0 {
        Ok(seq![])
    } else {
        match map_milestones(entries.drop_last()) {
            Err(e) => Err(e),
            Ok(prefix) => match entries.last() {
                None => Err(MappingFault::MissingField(milestone_node_path())),
                Some(m) => match map_milestone_spec(m) {
                    Err(e) => Err(e),
                    Ok(ps) => Ok(prefix + ps),
                },
            },
        }
    }
}

/// What a whole response maps to.
pub open spec fn mapped(r: ResponseData) -> Result<Seq<PullRequestView>, MappingFault> {
    match r.repository {
        None => Err(MappingFault::MissingField(repository_path())),
        Some(repo) => match repo.milestones {
            None => Err(MappingFault::MissingField(milestones_path())),
            Some(ms) => match ms.nodes {
                None => Ok(seq![]),
                Some(v) => map_milestones(v@),
            },
        },
    }
}

/// The number of pull-request entries of a milestone entry.
pub open spec fn entry_count(m: Option<MilestoneNode>) -> nat {
    match m {
        Some(m) => match m.pull_requests.nodes {
            Some(v) => v@.len(),
            None => 0,
        },
        None => 0,
    }
}

/// The number of pull-request entries over the milestone entries.
pub open spec fn milestones_count(entries: Seq<Option<MilestoneNode>>) -> nat
    decreases entries.len(),
{
    if entries.len() == 0 {
        0
    } else {
        milestones_count(entries.drop_last()) + entry_count(entries.last())
    }
}

/// The number of pull-request entries of a response, over all its
/// milestones.
pub open spec fn pull_request_count(r: ResponseData) -> nat {
    match r.repository {
        Some(repo) => match repo.milestones {
            Some(ms) => match ms.nodes {
                Some(v) => milestones_count(v@),
                None => 0,
            },
            None => 0,
        },
        None => 0,
    }
}

proof fn lemma_entries_count(s: Seq<Option<PullRequestNode>>)
    requires
        map_entries(s) is Ok,
    ensures
        map_entries(s)->Ok_0.len() == s.len(),
    decreases s.len(),
{
    if s.len() > 0 {
        lemma_entries_count(s.drop_last());
    }
}

proof fn lemma_milestones_count(s: Seq<Option<MilestoneNode>>)
    requires
        map_milestones(s) is Ok,
    ensures
        map_milestones(s)->Ok_0.len() == milestones_count(s),
    decreases s.len(),
{
    if s.len() > 0 {
        lemma_milestones_count(s.drop_last());
        if let Some(m) = s.last() {
            if let Some(v) = m.pull_requests.nodes {
                lemma_entries_count(v@);
            }
        }
    }
}

/// A response that maps gives one pull request per pull-request entry,
/// summed over its milestones.
pub proof fn lemma_mapped_count(r: ResponseData)
    requires
        mapped(r) is Ok,
    ensures
        mapped(r)->Ok_0.len() == pull_request_count(r),
{
    if let Some(repo) = r.repository {
        if let Some(ms) = repo.milestones {
            if let Some(v) = ms.nodes {
                lemma_milestones_count(v@);
            }
        }
    }
}

/// A pull-request node with an author and a null `labels` object maps to a
/// pull request with no labels, not to a failure.
pub proof fn lemma_null_labels_map_to_none(n: PullRequestNode)
    requires
        n.author is Some,
        n.labels is None,
    ensures
        map_node(n) is Ok,
        map_node(n)->Ok_0.labels.len() == 0,
{
}

/// Whether pull-request entry `j` of milestone entry `i` of the response
/// is a node without author.
pub open spec fn authorless_at(r: ResponseData, i: int, j: int) -> bool {
    match r.repository {
        Some(repo) => match repo.milestones {
            Some(ms) => match ms.nodes {
                Some(v) => 0 <= i < v@.len() && match v@[i] {
                    Some(m) => match m.pull_requests.nodes {
                        Some(w) => 0 <= j < w@.len() && match w@[j] {
                            Some(n) => n.author is None,
                            None => false,
                        },
                        None => false,
                    },
                    None => false,
                },
                None => false,
            },
            None => false,
        },
        None => false,
    }
}

/// A pull-request entry without author fails the whole response: a node
/// without author maps to `MissingAuthor` with its id, and no pull request
/// of the response is returned.
pub proof fn lemma_missing_author_fails_all(r: ResponseData, i: int, j: int)
    requires
        authorless_at(r, i, j),
    ensures
        mapped(r) is Err,
        forall|n: PullRequestNode|
            n.author is None ==> map_node(n) == Err::<PullRequestView, _>(
                MappingFault::MissingAuthor(n.id@),
            ),
{
    let v = r.repository->Some_0.milestones->Some_0.nodes->Some_0@;
    let m = v[i]->Some_0;
    let w = m.pull_requests.nodes->Some_0@;
    assert(w.take(j + 1).drop_last() =~= w.take(j));
    assert(w.take(j + 1).last() == w[j]);
    lemma_entries_failure_stays(w, j + 1);
    assert(v.take(i + 1).drop_last() =~= v.take(i));
    assert(v.take(i + 1).last() == v[i]);
    lemma_milestones_failure_stays(v, i + 1);
}

/// The pull-request entries of a milestone entry: none where the entry or
/// its list is null.
pub open spec fn entries_of(m: Option<MilestoneNode>) -> Seq<Option<PullRequestNode>> {
    match m {
        Some(m) => match m.pull_requests.nodes {
            Some(v) => v@,
            None => seq![],
        },
        None => seq![],
    }
}

/// The pull-request entries of all the milestone entries, in order.
pub open spec fn flat_entries(v: Seq<Option<MilestoneNode>>) -> Seq<Option<PullRequestNode>>
    decreases v.len(),
{
    if v.len() == 0 {
        seq![]
    } else {
        flat_entries(v.drop_last()) + entries_of(v.last())
    }
}

/// Entry `j` is a node without author, and every entry before it is a node
/// with an author.
pub open spec fn first_authorless(s: Seq<Option<PullRequestNode>>, j: int) -> bool {
    &&& 0 <= j < s.len()
    &&& s[j] is Some
    &&& s[j]->Some_0.author is None
    &&& forall|k: int| 0 <= k < j ==> (#[trigger] s[k]) is Some && s[k]->Some_0.author is Some
}

/// Every entry is a node with an author.
pub open spec fn all_authored(s: Seq<Option<PullRequestNode>>) -> bool {
    forall|k: int| 0 <= k < s.len() ==> (#[trigger] s[k]) is Some && s[k]->Some_0.author is Some
}

proof fn lemma_entries_ok(s: Seq<Option<PullRequestNode>>)
    requires
        all_authored(s),
    ensures
        map_entries(s) is Ok,
    decreases s.len(),
{
    if s.len() > 0 {
        let pre = s.drop_last();
        assert forall|k: int| 0 <= k < pre.len() implies (#[trigger] pre[k]) is Some
            && pre[k]->Some_0.author is Some by {
            assert(pre[k] == s[k]);
        }
        lemma_entries_ok(pre);
        assert(s.last() == s[s.len() - 1]);
    }
}

proof fn lemma_entries_first_authorless(s: Seq<Option<PullRequestNode>>, j: int)
    requires
        first_authorless(s, j),
    ensures
        map_entries(s) == Err::<Seq<PullRequestView>, _>(
            MappingFault::MissingAuthor(s[j]->Some_0.id@),
        ),
    decreases s.len(),
{
    let pre = s.drop_last();
    if j == s.len() - 1 {
        assert forall|k: int| 0 <= k < pre.len() implies (#[trigger] pre[k]) is Some
            && pre[k]->Some_0.author is Some by {
            assert(pre[k] == s[k]);
        }
        lemma_entries_ok(pre);
        assert(s.last() == s[j]);
    } else {
        assert forall|k: int| 0 <= k < j implies (#[trigger] pre[k]) is Some
            && pre[k]->Some_0.author is Some by {
            assert(pre[k] == s[k]);
        }
        assert(pre[j] == s[j]);
        lemma_entries_first_authorless(pre, j);
    }
}

proof fn lemma_milestones_ok(v: Seq<Option<MilestoneNode>>)
    requires
        forall|i: int| 0 <= i < v.len() ==> (#[trigger] v[i]) is Some,
        all_authored(flat_entries(v)),
    ensures
        map_milestones(v) is Ok,
    decreases v.len(),
{
    if v.len() > 0 {
        let pre = v.drop_last();
        let f = flat_entries(pre);
        let e = entries_of(v.last());
        assert(flat_entries(v) == f + e);
        assert forall|i: int| 0 <= i < pre.len() implies (#[trigger] pre[i]) is Some by {
            assert(pre[i] == v[i]);
        }
        assert forall|k: int| 0 <= k < f.len() implies (#[trigger] f[k]) is Some
            && f[k]->Some_0.author is Some by {
            assert(flat_entries(v)[k] == f[k]);
        }
        lemma_milestones_ok(pre);
        assert forall|k: int| 0 <= k < e.len() implies (#[trigger] e[k]) is Some
            && e[k]->Some_0.author is Some by {
            assert(flat_entries(v)[f.len() + k] == e[k]);
        }
        lemma_entries_ok(e);
        assert(v.last() == v[v.len() - 1]);
    }
}

proof fn lemma_milestones_first_authorless(v: Seq<Option<MilestoneNode>>, j: int)
    requires
        forall|i: int| 0 <= i < v.len() ==> (#[trigger] v[i]) is Some,
        first_authorless(flat_entries(v), j),
    ensures
        map_milestones(v) == Err::<Seq<PullRequestView>, _>(
            MappingFault::MissingAuthor(flat_entries(v)[j]->Some_0.id@),
        ),
    decreases v.len(),
{
    let pre = v.drop_last();
    let f = flat_entries(pre);
    let e = entries_of(v.last());
    assert(flat_entries(v) == f + e);
    assert forall|i: int| 0 <= i < pre.len() implies (#[trigger] pre[i]) is Some by {
        assert(pre[i] == v[i]);
    }
    assert(v.last() == v[v.len() - 1]);
    if j < f.len() {
        assert forall|k: int| 0 <= k < j implies (#[trigger] f[k]) is Some
            && f[k]->Some_0.author is Some by {
            assert(flat_entries(v)[k] == f[k]);
        }
        assert(flat_entries(v)[j] == f[j]);
        lemma_milestones_first_authorless(pre, j);
    } else {
        assert forall|k: int| 0 <= k < f.len() implies (#[trigger] f[k]) is Some
            && f[k]->Some_0.author is Some by {
            assert(flat_entries(v)[k] == f[k]);
        }
        lemma_milestones_ok(pre);
        let jj = j - f.len();
        assert forall|k: int| 0 <= k < jj implies (#[trigger] e[k]) is Some
            && e[k]->Some_0.author is Some by {
            assert(flat_entries(v)[f.len() + k] == e[k]);
        }
        assert(flat_entries(v)[j] == e[jj]);
        lemma_entries_first_authorless(e, jj);
    }
}

/// Where no milestone entry is null, the first pull-request entry without
/// author, over all milestones in order, decides the failure: the response
/// maps to `MissingAuthor` with that node's id, and no pull request is
/// returned.
pub proof fn lemma_first_missing_author(r: ResponseData, j: int)
    requires
        r.repository is Some,
        r.repository->Some_0.milestones is Some,
        r.repository->Some_0.milestones->Some_0.nodes is Some,
        forall|i: int|
            0 <= i < r.repository->Some_0.milestones->Some_0.nodes->Some_0@.len()
                ==> (#[trigger] r.repository->Some_0.milestones->Some_0.nodes->Some_0@[i]) is Some,
        first_authorless(flat_entries(r.repository->Some_0.milestones->Some_0.nodes->Some_0@), j),
    ensures
        mapped(r) == Err::<Seq<PullRequestView>, _>(
            MappingFault::MissingAuthor(
                flat_entries(r.repository->Some_0.milestones->Some_0.nodes->Some_0@)[j]->Some_0.id@,
            ),
        ),
{
    lemma_milestones_first_authorless(r.repository->Some_0.milestones->Some_0.nodes->Some_0@, j);
}

/// Abstract value of a mapping result.
pub open spec fn result_view(r: Result<Vec<PullRequest>, MappingError>) -> Result<
    Seq<PullRequestView>,
    MappingFault,
> {
    match r {
        Ok(v) => Ok(views(v@)),
        Err(e) => Err(e@),
    }
}

proof fn lemma_entries_failure_stays(s: Seq<Option<PullRequestNode>>, k: int)
    requires
        0 <= k <= s.len(),
        map_entries(s.take(k)) is Err,
    ensures
        map_entries(s) == map_entries(s.take(k)),
    decreases s.len(),
{
    if k == s.len() {
        assert(s.take(k) =~= s);
    } else {
        assert(s.drop_last().take(k) =~= s.take(k));
        lemma_entries_failure_stays(s.drop_last(), k);
    }
}

proof fn lemma_milestones_failure_stays(s: Seq<Option<MilestoneNode>>, k: int)
    requires
        0 <= k <= s.len(),
        map_milestones(s.take(k)) is Err,
    ensures
        map_milestones(s) == map_milestones(s.take(k)),
    decreases s.len(),
{
    if k == s.len() {
        assert(s.take(k) =~= s);
    } else {
        assert(s.drop_last().take(k) =~= s.take(k));
        lemma_milestones_failure_stays(s.drop_last(), k);
    }
}

/// The labels of a pull-request node, in response order, skipping null
/// entries; a null `labels` object or list gives none.
pub fn get_labels(pr: &PullRequestNode) -> (r: Vec<Label>)
    ensures
        r@.map_values(|l: Label| l@) == labels_of(*pr),
        pr.labels is None ==> r@.len() == 0,
{
    let mut out: Vec<Label> = Vec::new();
    if let Some(conn) = &pr.labels {
        if let Some(entries) = &conn.nodes {
            let mut i: usize = 0;
            while i < entries.len()
                invariant
                    i <= entries@.len(),
                    out@.map_values(|l: Label| l@) == label_names(entries@.take(i as int)),
                decreases entries@.len() - i,
            {
                assert(entries@.take(i as int + 1).drop_last() =~= entries@.take(i as int));
                if let Some(l) = &entries[i] {
                    out.push(Label { name: l.name.clone() });
                }
                proof {
                    assert(out@.map_values(|l: Label| l@) =~= label_names(
                        entries@.take(i as int + 1),
                    ));
                }
                i = i + 1;
            }
            assert(entries@.take(i as int) =~= entries@);
        }
    }
    out
}

fn map_node_exec(node: &PullRequestNode) -> (r: Result<PullRequest, MappingError>)
    ensures
        match (r, map_node(*node)) {
            (Ok(p), Ok(v)) => p@ == v,
            (Err(e), Err(f)) => e@ == f,
            _ => false,
        },
{
    match &node.author {
        None => Err(MappingError::MissingAuthor(node.id.clone())),
        Some(a) => {
            let labels = get_labels(node);
            Ok(
                PullRequest {
                    id: node.id.clone(),
                    title: node.title.clone(),
                    url: node.url.clone(),
                    number: node.number,
                    labels,
                    author: Author { login: a.login.clone(), url: a.url.clone() },
                },
            )
        },
    }
}

fn map_milestone(m: &MilestoneNode) -> (r: Result<Vec<PullRequest>, MappingError>)
    ensures
        result_view(r) == map_milestone_spec(*m),
{
    let mut out: Vec<PullRequest> = Vec::new();
    assert(views(out@) =~= seq![]);
    if let Some(entries) = &m.pull_requests.nodes {
        let mut i: usize = 0;
        while i < entries.len()
            invariant
                i <= entries@.len(),
                map_milestone_spec(*m) == map_entries(entries@),
                map_entries(entries@.take(i as int)) == Ok::<_, MappingFault>(views(out@)),
            decreases entries@.len() - i,
        {
            assert(entries@.take(i as int + 1).drop_last() =~= entries@.take(i as int));
            assert(entries@.take(i as int + 1).last() == entries@[i as int]);
            match &entries[i] {
                None => {
                    let e = MappingError::MissingField(
                        String::from_str("repository.milestones.nodes[].pullRequests.nodes[]"),
                    );
                    proof {
                        lemma_entries_failure_stays(entries@, i as int + 1);
                    }
                    return Err(e);
                },
                Some(node) => match map_node_exec(node) {
                    Err(e) => {
                        proof {
                            lemma_entries_failure_stays(entries@, i as int + 1);
                        }
                        return Err(e);
                    },
                    Ok(p) => {
                        let ghost before = out@;
                        out.push(p);
                        assert(views(out@) =~= views(before).push(p@));
                    },
                },
            }
            i = i + 1;
        }
        assert(entries@.take(i as int) =~= entries@);
    }
    Ok(out)
}

/// Maps a response to the flat sequence of its pull requests, milestone by
/// milestone and, within each, in response order. A null repository,
/// milestones object, milestone entry or pull-request entry fails with
/// `MissingField`, a pull request without author with `MissingAuthor`; the
/// first failure in response order fails the whole response.
pub fn map_pull_request(response_data: &ResponseData) -> (r: Result<Vec<PullRequest>, MappingError>)
    ensures
        result_view(r) == mapped(*response_data),
        response_data.repository is None ==> r matches Err(MappingError::MissingField(_)),
{
    let repository = match &response_data.repository {
        None => {
            return Err(MappingError::MissingField(String::from_str("repository")));
        },
        Some(repository) => repository,
    };
    let milestones = match &repository.milestones {
        None => {
            return Err(MappingError::MissingField(String::from_str("repository.milestones")));
        },
        Some(milestones) => milestones,
    };
    let mut out: Vec<PullRequest> = Vec::new();
    assert(views(out@) =~= seq![]);
    if let Some(entries) = &milestones.nodes {
        let mut i: usize = 0;
        while i < entries.len()
            invariant
                i <= entries@.len(),
                mapped(*response_data) == map_milestones(entries@),
                map_milestones(entries@.take(i as int)) == Ok::<_, MappingFault>(views(out@)),
            decreases entries@.len() - i,
        {
            assert(entries@.take(i as int + 1).drop_last() =~= entries@.take(i as int));
            assert(entries@.take(i as int + 1).last() == entries@[i as int]);
            match &entries[i] {
                None => {
                    let e = MappingError::MissingField(
                        String::from_str("repository.milestones.nodes[]"),
                    );
                    proof {
                        lemma_milestones_failure_stays(entries@, i as int + 1);
                    }
                    return Err(e);
                },
                Some(m) => match map_milestone(m) {
                    Err(e) => {
                        proof {
                            lemma_milestones_failure_stays(entries@, i as int + 1);
                        }
                        return Err(e);
                    },
                    Ok(ps) => {
                        let ghost before = out@;
                        let mut ps = ps;
                        out.append(&mut ps);
                        assert(views(out@) =~= views(before) + map_milestone_spec(*m)->Ok_0);
                    },
                },
            }
            i = i + 1;
        }
        assert(entries@.take(i as int) =~= entries@);
    }
    Ok(out)
}

} // verus!

use vstd::prelude::*;

verus! {

/// A tag attached to a pull request.
pub struct Label {
    pub name: String,
}

/// The author of a pull request, as the API reports it.
pub struct Author {
    pub login: String,
    pub url: String,
}

/// One pull request of the milestone.
pub struct PullRequest {
    pub id: String,
    pub title: String,
    pub url: String,
    pub number: i64,
    pub labels: Vec<Label>,
    pub author: Author,
}

/// Abstract value of an [`Author`].
pub ghost struct AuthorView {
    pub login: Seq<char>,
    pub url: Seq<char>,
}

/// Abstract value of a [`PullRequest`]: every string as its characters,
/// and the labels as the sequence of their names.
pub ghost struct PullRequestView {
    pub id: Seq<char>,
    pub title: Seq<char>,
    pub url: Seq<char>,
    pub number: i64,
    pub labels: Seq<Seq<char>>,
    pub author: AuthorView,
}

impl View for Label {
    type V = Seq<char>;

    open spec fn view(&self) -> Seq<char> {
        self.name@
    }
}

impl View for Author {
    type V = AuthorView;

    open spec fn view(&self) -> AuthorView {
        AuthorView { login: self.login@, url: self.url@ }
    }
}

impl View for PullRequest {
    type V = PullRequestView;

    open spec fn view(&self) -> PullRequestView {
        PullRequestView {
            id: self.id@,
            title: self.title@,
            url: self.url@,
            number: self.number,
            labels: self.labels@.map_values(|l: Label| l@),
            author: self.author@,
        }
    }
}

/// The abstract values of a slice of pull requests, in order.
pub open spec fn views(prs: Seq<PullRequest>) -> Seq<PullRequestView> {
    prs.map_values(|p: PullRequest| p@)
}

} // verus!

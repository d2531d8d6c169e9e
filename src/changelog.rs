use vstd::prelude::*;

use chrono::Datelike;

verus! {

/// What the changelog is made for: the repository's owner and name, the
/// milestone that names the release, and the access token for the API.
pub struct Args {
    pub release: String,
    pub owner: String,
    pub project: String,
    pub github_token: String,
}

/// A calendar date.
pub struct Date {
    pub year: i32,
    pub month: u32,
    pub day: u32,
}

impl Date {
    /// Month and day are in their calendar ranges.
    pub open spec fn wf(&self) -> bool {
        1 <= self.month <= 12 && 1 <= self.day <= 31
    }
}

/// The values that the changelog document is rendered from.
pub struct Changelog {
    pub owner: String,
    pub project: String,
    pub release: String,
    pub date: Date,
    pub pull_requests: String,
    pub contributors: String,
    pub labels: String,
}

/// Relies on chrono's `Utc::now` and `DateTime::date_naive` for today's UTC
/// date, and on `Datelike`'s documented ranges: month 1 to 12, day 1 to 31.
#[verifier::external_body]
fn today() -> (r: Date)
    ensures
        r.wf(),
{
    let d = chrono::Utc::now().date_naive();
    Date { year: d.year(), month: d.month(), day: d.day() }
}

/// The changelog of `args`'s release, dated `date`, with the three
/// rendered sections.
pub fn changelog_for_date(
    args: &Args,
    pr_markdown: &str,
    contributors: &str,
    labels: &str,
    date: Date,
) -> (r: Changelog)
    ensures
        r.owner@ == args.owner@,
        r.project@ == args.project@,
        r.release@ == args.release@,
        r.date == date,
        r.pull_requests@ == pr_markdown@,
        r.contributors@ == contributors@,
        r.labels@ == labels@,
{
    Changelog {
        owner: args.owner.clone(),
        project: args.project.clone(),
        release: args.release.clone(),
        date,
        pull_requests: String::from_str(pr_markdown),
        contributors: String::from_str(contributors),
        labels: String::from_str(labels),
    }
}

/// The changelog of `args`'s release, dated today (UTC), with the three
/// rendered sections.
pub fn create_changelog(args: &Args, pr_markdown: &str, contributors: &str, labels: &str) -> (r:
    Changelog)
    ensures
        r.owner@ == args.owner@,
        r.project@ == args.project@,
        r.release@ == args.release@,
        r.date.wf(),
        r.pull_requests@ == pr_markdown@,
        r.contributors@ == contributors@,
        r.labels@ == labels@,
{
    changelog_for_date(args, pr_markdown, contributors, labels, today())
}

} // verus!

//! Builds the markdown sections of a release changelog from the pull
//! requests attached to a milestone: a flat model mapped out of the nested
//! API response, and three markdown lists rendered from that model.

pub mod changelog;
pub mod lines;
pub mod markdown;
pub mod model;
pub mod response;
pub mod url;

pub use changelog::{changelog_for_date, create_changelog, Args, Changelog, Date};
pub use lines::unify_contributors;
pub use markdown::{
    format_contributors_to_md, format_items_to_md, format_labels_to_md,
    format_pull_requests_to_md, get_changelog_info,
};
pub use model::{Author, AuthorView, Label, PullRequest, PullRequestView};
pub use response::{
    get_labels, map_pull_request, AuthorNode, LabelConnection, LabelNode, MappingError,
    MappingFault, MilestoneConnection, MilestoneNode, PullRequestConnection, PullRequestNode,
    Repository, ResponseData,
};
pub use url::format_url;

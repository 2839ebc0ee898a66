//! Verified core of a newsletter-article browser.
//!
//! The library models a remote directory listing, keeps the entries that
//! are markdown files, orders them by name (descending, so that date-named
//! files come newest first), and selects the articles to show.  The
//! unverified binary around it only performs the two HTTP requests, decodes
//! the JSON listing into [`model::DirectoryEntry`] values, and renders the
//! chosen article.

pub mod listing;
pub mod model;
pub mod order;
pub mod sorting;

pub use listing::GithubContentFetcher;
pub use listing::latest_link;
pub use listing::take_links;
pub use model::Article;
pub use model::ArticleLink;
pub use model::DirectoryEntry;
pub use model::EntryKind;
pub use model::FetchError;
pub use model::is_markdown_name;

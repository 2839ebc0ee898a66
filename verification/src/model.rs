//! Data model: directory entries as the remote listing reports them,
//! article links derived from them, article text, and the error taxonomy.

use vstd::prelude::*;

verus! {

/// Whether a listed entry is a file or a subdirectory.
#[derive(Clone, Copy, PartialEq, Eq, Structural, Debug)]
pub enum EntryKind {
    File,
    Directory,
}

/// One entry of the remote directory listing.
///
/// The remote source promises that a `File` entry always carries a
/// download reference; `download_url` is optional here so that a listing
/// that breaks that promise can be represented and rejected.
#[derive(Clone, PartialEq, Eq, Debug)]
pub struct DirectoryEntry {
    pub kind: EntryKind,
    pub name: String,
    pub url: String,
    pub download_url: Option<String>,
}

/// Mathematical value of a [`DirectoryEntry`].
pub ghost struct DirectoryEntryView {
    pub kind: EntryKind,
    pub name: Seq<char>,
    pub url: Seq<char>,
    pub download_url: Option<Seq<char>>,
}

impl View for DirectoryEntry {
    type V = DirectoryEntryView;

    open spec fn view(&self) -> DirectoryEntryView {
        DirectoryEntryView {
            kind: self.kind,
            name: self.name@,
            url: self.url@,
            download_url: match self.download_url {
                Some(d) => Some(d@),
                None => None,
            },
        }
    }
}

/// A qualifying article: a markdown file of the listing, with its
/// human-browsable link and its raw-content link.
#[derive(Clone, PartialEq, Eq, Debug)]
pub struct ArticleLink {
    pub url: String,
    pub name: String,
    pub download_url: String,
}

/// Mathematical value of an [`ArticleLink`].
pub ghost struct ArticleLinkView {
    pub url: Seq<char>,
    pub name: Seq<char>,
    pub download_url: Seq<char>,
}

impl View for ArticleLink {
    type V = ArticleLinkView;

    open spec fn view(&self) -> ArticleLinkView {
        ArticleLinkView { url: self.url@, name: self.name@, download_url: self.download_url@ }
    }
}

/// The raw text of one article, exactly as the remote side returned it.
#[derive(Clone, PartialEq, Eq, Debug)]
pub struct Article {
    pub text: String,
}

impl View for Article {
    type V = Seq<char>;

    open spec fn view(&self) -> Seq<char> {
        self.text@
    }
}

impl Article {
    /// Wraps fetched text; the text is kept verbatim, with no transformation.
    pub fn new(text: String) -> (r: Article)
        ensures
            r.text == text,
    {
        Article { text }
    }
}

/// Everything that can go wrong while listing or fetching articles.
#[derive(Clone, Copy, PartialEq, Eq, Structural, Debug)]
pub enum FetchError {
    /// Transport-level failure of an HTTP request.
    NetworkError,
    /// The listing response did not have the expected shape.
    DecodeError,
    /// A file entry of the listing lacks its download reference.
    DataContractError,
    /// The listing holds no qualifying article.
    EmptyResultError,
}

/// `suffix` is the tail of `s`.
pub open spec fn has_suffix(s: Seq<char>, suffix: Seq<char>) -> bool {
    s.len() >= suffix.len() && s.subrange(s.len() - suffix.len(), s.len() as int) == suffix
}

/// A name counts as markdown when it ends in `.md` or `.markdown`,
/// case-sensitively.
pub open spec fn is_markdown(name: Seq<char>) -> bool {
    has_suffix(name, ".md"@) || has_suffix(name, ".markdown"@)
}

/// Decides `has_suffix` for concrete strings.
pub fn has_suffix_exec(s: &str, suffix: &str) -> (r: bool)
    ensures
        r == has_suffix(s@, suffix@),
{
    let n = s.unicode_len();
    let m = suffix.unicode_len();
    if m > n {
        return false;
    }
    let mut i: usize = 0;
    while i < m
        invariant
            m <= n,
            n == s@.len(),
            m == suffix@.len(),
            i <= m,
            forall|j: int| 0 <= j < i ==> s@[n - m + j] == suffix@[j],
        decreases m - i,
    {
        if s.get_char(n - m + i) != suffix.get_char(i) {
            proof {
                assert(s@.subrange(n - m, n as int)[i as int] == s@[n - m + i]);
            }
            return false;
        }
        i += 1;
    }
    proof {
        assert(s@.subrange(n - m, n as int) =~= suffix@);
    }
    true
}

/// Decides `is_markdown` for a concrete name.
pub fn is_markdown_name(name: &str) -> (r: bool)
    ensures
        r == is_markdown(name@),
{
    has_suffix_exec(name, ".md") || has_suffix_exec(name, ".markdown")
}

} // verus!

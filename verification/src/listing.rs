//! Listing logic: which entries of the remote directory qualify as
//! articles, in what order they are presented, and how the latest or the
//! first `n` of them are selected.

use vstd::prelude::*;
use crate::model::Article;
use crate::model::ArticleLink;
use crate::model::ArticleLinkView;
use crate::model::DirectoryEntry;
use crate::model::DirectoryEntryView;
use crate::model::EntryKind;
use crate::model::FetchError;
use crate::model::is_markdown;
use crate::model::is_markdown_name;
use crate::sorting::link_views;
use crate::sorting::sort_desc;
use crate::sorting::sort_links_desc;
use crate::sorting::sorted_desc;
use crate::sorting::lemma_sort_desc_all;
use crate::sorting::lemma_sort_desc_contains;
use crate::sorting::lemma_sort_desc_sorted;

verus! {

/// The mathematical values of a sequence of entries.
pub open spec fn entry_views(s: Seq<DirectoryEntry>) -> Seq<DirectoryEntryView> {
    s.map_values(|e: DirectoryEntry| e@)
}

/// An entry qualifies as an article: file-typed, with a markdown name.
pub open spec fn is_markdown_file(e: DirectoryEntryView) -> bool {
    e.kind == EntryKind::File && is_markdown(e.name)
}

/// A file-typed entry that lacks its download reference, which the remote
/// source promises never to send.
pub open spec fn missing_download(e: DirectoryEntryView) -> bool {
    e.kind == EntryKind::File && e.download_url is None
}

/// The listing breaks the remote source's promise somewhere.
pub open spec fn listing_violation(s: Seq<DirectoryEntryView>) -> bool {
    exists|i: int| 0 <= i < s.len() && missing_download(#[trigger] s[i])
}

/// The article link a qualifying entry turns into.
pub open spec fn link_of(e: DirectoryEntryView) -> ArticleLinkView {
    ArticleLinkView { url: e.url, name: e.name, download_url: e.download_url.unwrap() }
}

/// The links of the qualifying entries, still in listing order.
pub open spec fn article_links_of(s: Seq<DirectoryEntryView>) -> Seq<ArticleLinkView> {
    s.filter(|e: DirectoryEntryView| is_markdown_file(e)).map_values(
        |e: DirectoryEntryView| link_of(e),
    )
}

/// What listing the articles returns on a decoded listing that keeps the
/// remote source's promise: the qualifying links, newest name first.
pub open spec fn listed_articles(s: Seq<DirectoryEntryView>) -> Seq<ArticleLinkView> {
    sort_desc(article_links_of(s))
}

/// Lists articles from a fixed remote repository directory.
///
/// The endpoint, the directory path and the identifying client header are
/// injected at construction; an unverified caller performs the HTTP
/// requests against them and hands the decoded entries back.
pub struct GithubContentFetcher {
    pub base_url: String,
    pub content_path: String,
    pub user_agent: String,
}

impl GithubContentFetcher {
    /// A fetcher aimed at the fixed newsletter repository.
    pub fn new() -> (r: GithubContentFetcher)
        ensures
            r.base_url@ == "https://api.github.com"@,
            r.content_path@ == "/repos/rust-lang/this-week-in-rust/contents/content"@,
            r.user_agent@ == "rust_weekly/0.1.0"@,
    {
        GithubContentFetcher {
            base_url: "https://api.github.com".to_owned(),
            content_path: "/repos/rust-lang/this-week-in-rust/contents/content".to_owned(),
            user_agent: "rust_weekly/0.1.0".to_owned(),
        }
    }

    /// The URL of the directory listing: base URL followed by the path.
    pub fn listing_url(&self) -> (r: String)
        ensures
            r@ == self.base_url@ + self.content_path@,
    {
        self.base_url.clone().concat(self.content_path.as_str())
    }

    /// The filtering and ordering step of listing the articles.
    ///
    /// Keeps exactly the file-typed entries with a markdown name, sorted by
    /// name in descending lexicographic order; fails with
    /// [`FetchError::DataContractError`] exactly when some file-typed entry
    /// lacks its download reference, without a partial result.
    pub fn select_articles(&self, entries: &Vec<DirectoryEntry>) -> (r: Result<
        Vec<ArticleLink>,
        FetchError,
    >)
        ensures
            (match r {
                Ok(links) => !listing_violation(entry_views(entries@)) && link_views(links@)
                    == listed_articles(entry_views(entries@)),
                Err(e) => e == FetchError::DataContractError && listing_violation(
                    entry_views(entries@),
                ),
            }),
    {
        let ghost evs = entry_views(entries@);
        let mut links: Vec<ArticleLink> = Vec::new();
        let mut i: usize = 0;
        proof {
            reveal(Seq::filter);
            assert(evs.take(0) =~= Seq::<DirectoryEntryView>::empty());
            assert(link_views(links@) =~= article_links_of(evs.take(0)));
        }
        while i < entries.len()
            invariant
                i <= entries@.len(),
                evs == entry_views(entries@),
                forall|k: int| 0 <= k < i ==> !missing_download(#[trigger] evs[k]),
                link_views(links@) == article_links_of(evs.take(i as int)),
            decreases entries@.len() - i,
        {
            let e = &entries[i];
            proof {
                assert(evs[i as int] == entries@[i as int]@);
            }
            if matches!(e.kind, EntryKind::File) {
                match &e.download_url {
                    None => {
                        proof {
                            assert(missing_download(evs[i as int]));
                        }
                        return Err(FetchError::DataContractError);
                    },
                    Some(d) => {
                        if is_markdown_name(e.name.as_str()) {
                            let link = ArticleLink {
                                url: e.url.clone(),
                                name: e.name.clone(),
                                download_url: d.clone(),
                            };
                            proof {
                                assert(link@ == link_of(evs[i as int]));
                            }
                            links.push(link);
                        }
                    },
                }
            }
            proof {
                reveal(Seq::filter);
                let t0 = evs.take(i as int);
                let t1 = evs.take(i as int + 1);
                assert(t1.drop_last() =~= t0);
                assert(t1.last() == evs[i as int]);
                let pred = (|e: DirectoryEntryView| is_markdown_file(e));
                assert(t1.filter(pred) == if pred(evs[i as int]) {
                    t0.filter(pred).push(evs[i as int])
                } else {
                    t0.filter(pred)
                });
                if pred(evs[i as int]) {
                    assert(article_links_of(t1) =~= article_links_of(t0).push(
                        link_of(evs[i as int]),
                    ));
                    assert(link_views(links@) =~= article_links_of(t1));
                } else {
                    assert(article_links_of(t1) =~= article_links_of(t0));
                }
            }
            i += 1;
        }
        proof {
            assert(evs.take(i as int) =~= evs);
        }
        let sorted = sort_links_desc(links);
        Ok(sorted)
    }

    /// The wrapping step of fetching one article: the response body becomes
    /// the article's text, verbatim.
    pub fn build_article(&self, text: String) -> (r: Article)
        ensures
            r.text == text,
    {
        Article::new(text)
    }
}

/// The first `count` articles of the listing, or all of them where fewer
/// were listed.
pub fn take_links(links: Vec<ArticleLink>, count: usize) -> (r: Vec<ArticleLink>)
    requires
        1 <= count,
    ensures
        count <= links@.len() ==> r@ == links@.take(count as int),
        count > links@.len() ==> r@ == links@,
{
    let mut r = links;
    r.truncate(count);
    r
}

/// The latest article of the listing: its first element, the largest name.
/// An empty listing is reported, never indexed.
pub fn latest_link(links: &Vec<ArticleLink>) -> (r: Result<&ArticleLink, FetchError>)
    ensures
        (match r {
            Ok(l) => links@.len() > 0 && *l == links@[0],
            Err(e) => links@.len() == 0 && e == FetchError::EmptyResultError,
        }),
{
    if links.len() == 0 {
        Err(FetchError::EmptyResultError)
    } else {
        Ok(&links[0])
    }
}

/// A filtered element originates in the sequence it was filtered from.
proof fn lemma_filter_origin(
    s: Seq<DirectoryEntryView>,
    pred: spec_fn(DirectoryEntryView) -> bool,
    i: int,
)
    requires
        0 <= i < s.filter(pred).len(),
    ensures
        s.contains(s.filter(pred)[i]),
    decreases s.len(),
{
    reveal(Seq::filter);
    if s.len() > 0 {
        let f = s.filter(pred);
        let fd = s.drop_last().filter(pred);
        if pred(s.last()) && i == fd.len() {
            assert(f[i] == s.last());
            assert(s[s.len() - 1] == f[i]);
        } else {
            lemma_filter_origin(s.drop_last(), pred, i);
            let j = choose|j: int| 0 <= j < s.drop_last().len() && s.drop_last()[j] == fd[i];
            assert(s[j] == f[i]);
        }
    }
}

/// Nothing passes a filter that no element of the sequence satisfies.
proof fn lemma_filter_none(s: Seq<DirectoryEntryView>, pred: spec_fn(DirectoryEntryView) -> bool)
    requires
        forall|i: int| 0 <= i < s.len() ==> !pred(#[trigger] s[i]),
    ensures
        s.filter(pred).len() == 0,
    decreases s.len(),
{
    reveal(Seq::filter);
    if s.len() > 0 {
        assert(forall|i: int|
            0 <= i < s.drop_last().len() ==> !pred(#[trigger] s.drop_last()[i]));
        lemma_filter_none(s.drop_last(), pred);
    }
}

/// `l` is the link of some file-typed, markdown-named entry of the listing.
pub open spec fn from_markdown_entry(entries: Seq<DirectoryEntryView>, l: ArticleLinkView) -> bool {
    exists|j: int|
        0 <= j < entries.len() && is_markdown_file(#[trigger] entries[j]) && l == link_of(
            entries[j],
        )
}

/// Only markdown files appear: every listed article has a markdown name
/// and is the link of some file-typed, markdown-named entry of the
/// listing — no directory entry, no other file ever shows up.
pub proof fn lemma_listed_articles_only_markdown_files(entries: Seq<DirectoryEntryView>)
    ensures
        forall|i: int|
            0 <= i < listed_articles(entries).len() ==> is_markdown(
                (#[trigger] listed_articles(entries)[i]).name,
            ),
        forall|i: int|
            0 <= i < listed_articles(entries).len() ==> from_markdown_entry(
                entries,
                #[trigger] listed_articles(entries)[i],
            ),
{
    let pred = (|e: DirectoryEntryView| is_markdown_file(e));
    let raw = article_links_of(entries);
    let p = (|l: ArticleLinkView| from_markdown_entry(entries, l));
    assert forall|i: int| 0 <= i < raw.len() implies p(#[trigger] raw[i]) by {
        assert(raw[i] == link_of(entries.filter(pred)[i]));
        lemma_filter_origin(entries, pred, i);
        entries.lemma_filter_pred(pred, i);
        let j = choose|j: int|
            0 <= j < entries.len() && entries[j] == entries.filter(pred)[i];
        assert(is_markdown_file(entries[j]));
    }
    lemma_sort_desc_all(raw, p);
    assert forall|i: int| 0 <= i < listed_articles(entries).len() implies is_markdown(
        (#[trigger] listed_articles(entries)[i]).name,
    ) by {
        assert(p(listed_articles(entries)[i]));
    }
}

/// No qualifying article is dropped: the link of every file-typed,
/// markdown-named entry appears among the listed articles.
pub proof fn lemma_listed_articles_complete(entries: Seq<DirectoryEntryView>, j: int)
    requires
        0 <= j < entries.len(),
        is_markdown_file(entries[j]),
    ensures
        listed_articles(entries).contains(link_of(entries[j])),
{
    let pred = (|e: DirectoryEntryView| is_markdown_file(e));
    entries.lemma_filter_contains(pred, j);
    let f = entries.filter(pred);
    let k = choose|k: int| 0 <= k < f.len() && f[k] == entries[j];
    let raw = article_links_of(entries);
    assert(raw[k] == link_of(entries[j]));
    assert(raw.contains(link_of(entries[j])));
    lemma_sort_desc_contains(raw);
}

/// The listed articles are sorted by name in descending lexicographic
/// order: along the sequence, names strictly never increase.
pub proof fn lemma_listed_articles_sorted(entries: Seq<DirectoryEntryView>)
    ensures
        sorted_desc(listed_articles(entries)),
{
    lemma_sort_desc_sorted(article_links_of(entries));
}

/// Idempotence: listing twice against an unchanged remote state — the same
/// decoded entries — yields an identical ordered sequence, because the
/// listed articles are a function of the entries alone.
pub proof fn lemma_listed_articles_idempotent(
    first: Seq<DirectoryEntryView>,
    second: Seq<DirectoryEntryView>,
)
    requires
        first == second,
    ensures
        listed_articles(first) == listed_articles(second),
{
}

/// A listing with no qualifying markdown file — an empty one included —
/// yields no articles at all.
pub proof fn lemma_no_markdown_file_no_articles(entries: Seq<DirectoryEntryView>)
    requires
        forall|i: int| 0 <= i < entries.len() ==> !is_markdown_file(#[trigger] entries[i]),
    ensures
        listed_articles(entries).len() == 0,
{
    let pred = (|e: DirectoryEntryView| is_markdown_file(e));
    lemma_filter_none(entries, pred);
    assert(article_links_of(entries).len() == 0);
    assert(listed_articles(entries) == sort_desc(article_links_of(entries)));
}

} // verus!

use rust_weekly::Article;
use rust_weekly::ArticleLink;
use rust_weekly::DirectoryEntry;
use rust_weekly::EntryKind;
use rust_weekly::FetchError;
use rust_weekly::GithubContentFetcher;
use rust_weekly::is_markdown_name;
use rust_weekly::latest_link;
use rust_weekly::take_links;

fn file(name: &str, url: &str, download: &str) -> DirectoryEntry {
    DirectoryEntry {
        kind: EntryKind::File,
        name: name.to_string(),
        url: url.to_string(),
        download_url: Some(download.to_string()),
    }
}

fn file_without_download(name: &str, url: &str) -> DirectoryEntry {
    DirectoryEntry {
        kind: EntryKind::File,
        name: name.to_string(),
        url: url.to_string(),
        download_url: None,
    }
}

fn directory(name: &str, url: &str) -> DirectoryEntry {
    DirectoryEntry {
        kind: EntryKind::Directory,
        name: name.to_string(),
        url: url.to_string(),
        download_url: None,
    }
}

fn names(links: &[ArticleLink]) -> Vec<String> {
    links.iter().map(|l| l.name.clone()).collect()
}

#[test]
fn lists_only_sorted_markdown_scenario() {
    let fetcher = GithubContentFetcher::new();
    let entries = vec![
        file("2024-01-01.md", "url1", "d1"),
        file("2023-12-25.md", "url2", "d2"),
        directory("images", "url3"),
    ];
    let links = fetcher.select_articles(&entries).unwrap();
    assert_eq!(names(&links), vec!["2024-01-01.md".to_string(), "2023-12-25.md".to_string()]);
    assert_eq!(links[0].url, "url1");
    assert_eq!(links[0].download_url, "d1");
    assert_eq!(links[1].url, "url2");
    assert_eq!(links[1].download_url, "d2");
}

#[test]
fn list_one_returns_latest() {
    let fetcher = GithubContentFetcher::new();
    let entries = vec![
        file("2024-01-01.md", "url1", "d1"),
        file("2023-12-25.md", "url2", "d2"),
        directory("images", "url3"),
    ];
    let links = fetcher.select_articles(&entries).unwrap();
    let first = take_links(links, 1);
    assert_eq!(first.len(), 1);
    assert_eq!(first[0].name, "2024-01-01.md");
    assert_eq!(first[0].url, "url1");
}

#[test]
fn article_text_verbatim() {
    let fetcher = GithubContentFetcher::new();
    let article = fetcher.build_article("# Hi".to_string());
    assert_eq!(article.text, "# Hi");
    let direct = Article::new("# Hi".to_string());
    assert_eq!(direct.text, "# Hi");
}

#[test]
fn empty_listing_yields_empty_and_empty_error() {
    let fetcher = GithubContentFetcher::new();
    let entries: Vec<DirectoryEntry> = vec![];
    let links = fetcher.select_articles(&entries).unwrap();
    assert!(links.is_empty());
    assert_eq!(latest_link(&links).unwrap_err(), FetchError::EmptyResultError);
}

#[test]
fn non_markdown_listing_yields_empty() {
    let fetcher = GithubContentFetcher::new();
    let entries = vec![
        directory("content", "u1"),
        file("notes.txt", "u2", "d2"),
        file("README", "u3", "d3"),
    ];
    let links = fetcher.select_articles(&entries).unwrap();
    assert!(links.is_empty());
    assert_eq!(latest_link(&links).unwrap_err(), FetchError::EmptyResultError);
}

#[test]
fn missing_download_fails_listing() {
    let fetcher = GithubContentFetcher::new();
    let entries = vec![
        file("2024-01-01.md", "url1", "d1"),
        file_without_download("2023-12-25.md", "url2"),
    ];
    let err = fetcher.select_articles(&entries).unwrap_err();
    assert_eq!(err, FetchError::DataContractError);
}

#[test]
fn missing_download_on_any_file_fails() {
    let fetcher = GithubContentFetcher::new();
    let entries = vec![
        file("2024-01-01.md", "url1", "d1"),
        file_without_download("notes.txt", "url2"),
    ];
    let err = fetcher.select_articles(&entries).unwrap_err();
    assert_eq!(err, FetchError::DataContractError);
}

#[test]
fn listing_twice_identical() {
    let fetcher = GithubContentFetcher::new();
    let entries = vec![
        file("2023-07-09.md", "u1", "d1"),
        file("2024-02-02.md", "u2", "d2"),
        file("2023-12-25.md", "u3", "d3"),
    ];
    let once = fetcher.select_articles(&entries).unwrap();
    let twice = fetcher.select_articles(&entries).unwrap();
    assert_eq!(once, twice);
}

#[test]
fn sorts_descending_by_name() {
    let fetcher = GithubContentFetcher::new();
    let entries = vec![
        file("b.md", "ub", "db"),
        file("a.md", "ua", "da"),
        file("c.md", "uc", "dc"),
    ];
    let links = fetcher.select_articles(&entries).unwrap();
    assert_eq!(
        names(&links),
        vec!["c.md".to_string(), "b.md".to_string(), "a.md".to_string()]
    );
}

#[test]
fn equal_names_keep_listing_order() {
    let fetcher = GithubContentFetcher::new();
    let entries = vec![
        file("same.md", "first", "d1"),
        file("zz.md", "top", "d0"),
        file("same.md", "second", "d2"),
    ];
    let links = fetcher.select_articles(&entries).unwrap();
    assert_eq!(links.len(), 3);
    assert_eq!(links[0].url, "top");
    assert_eq!(links[1].url, "first");
    assert_eq!(links[2].url, "second");
}

#[test]
fn markdown_suffix_rules() {
    assert!(is_markdown_name("2024-01-01.md"));
    assert!(is_markdown_name("weekly.markdown"));
    assert!(is_markdown_name(".md"));
    assert!(!is_markdown_name("READMEmd"));
    assert!(!is_markdown_name("notes.txt"));
    assert!(!is_markdown_name("upper.MD"));
    assert!(!is_markdown_name("story.mdown"));
    assert!(!is_markdown_name("md"));
    assert!(!is_markdown_name(""));
}

#[test]
fn take_links_beyond_length_returns_all() {
    let fetcher = GithubContentFetcher::new();
    let entries = vec![file("a.md", "ua", "da"), file("b.md", "ub", "db")];
    let links = fetcher.select_articles(&entries).unwrap();
    let all = take_links(links.clone(), 5);
    assert_eq!(all, links);
    let two = take_links(links.clone(), 2);
    assert_eq!(two, links);
}

#[test]
fn latest_of_listing_is_first() {
    let fetcher = GithubContentFetcher::new();
    let entries = vec![
        file("2023-12-25.md", "u2", "d2"),
        file("2024-01-01.md", "u1", "d1"),
    ];
    let links = fetcher.select_articles(&entries).unwrap();
    let latest = latest_link(&links).unwrap();
    assert_eq!(latest.name, "2024-01-01.md");
    assert_eq!(latest.url, "u1");
    assert_eq!(latest.download_url, "d1");
}

#[test]
fn fetcher_points_at_fixed_repository() {
    let fetcher = GithubContentFetcher::new();
    assert_eq!(fetcher.base_url, "https://api.github.com");
    assert_eq!(fetcher.content_path, "/repos/rust-lang/this-week-in-rust/contents/content");
    assert_eq!(fetcher.user_agent, "rust_weekly/0.1.0");
    assert_eq!(
        fetcher.listing_url(),
        "https://api.github.com/repos/rust-lang/this-week-in-rust/contents/content"
    );
}

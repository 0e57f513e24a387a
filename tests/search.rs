use pyano::search::{DuckDuckGoSearchResults, SearchError, SearchResult};

const PAGE: &str = r#"<html><body>
<div class="result web-result"><h2><a class="result__a" href="/one">First <b>title</b></a></h2>
<a class="result__url" href="/one">  example.com/one  </a>
<a class="result__snippet">Snippet one</a></div>
<div class="web-result"><a class="result__a">Second</a><span class="result__url">
 example.org/two </span></div>
<div class="web-result"><a class="result__a">Third</a></div>
</body></html>"#;

#[test]
fn duckduckgosearch_tool() {
    let ddg = DuckDuckGoSearchResults::default().with_max_results(5);
    assert_eq!(ddg.max_results(), 5);
    let url = ddg.query_url("Who is the current President of Peru?").unwrap();
    assert_eq!(url, "https://duckduckgo.com/html/?q=Who+is+the+current+President+of+Peru%3F");
}

#[test]
fn new_keeps_four_results() {
    let ddg = DuckDuckGoSearchResults::new();
    assert_eq!(ddg.max_results(), 4);
    assert_eq!(ddg.name(), "DuckDuckGoSearch");
}

#[test]
fn page_results_in_order_with_trimmed_links() {
    let ddg = DuckDuckGoSearchResults::new();
    let results = ddg.results_from_page(PAGE).unwrap();
    assert_eq!(results.len(), 3);
    assert_eq!(results[0].title, "First title");
    assert_eq!(results[0].link, "example.com/one");
    assert_eq!(results[0].snippet, "Snippet one");
    assert_eq!(results[1].title, "Second");
    assert_eq!(results[1].link, "example.org/two");
    assert_eq!(results[1].snippet, "");
    assert_eq!(results[2].title, "Third");
    assert_eq!(results[2].link, "");
}

#[test]
fn page_results_capped_at_max() {
    let ddg = DuckDuckGoSearchResults::new().with_max_results(2);
    let results = ddg.results_from_page(PAGE).unwrap();
    assert_eq!(results.len(), 2);
    assert_eq!(results[1].title, "Second");
    let none = DuckDuckGoSearchResults::new().with_max_results(0).results_from_page(PAGE).unwrap();
    assert!(none.is_empty());
}

#[test]
fn empty_page_has_no_results() {
    let results = DuckDuckGoSearchResults::new().results_from_page("").unwrap();
    assert!(results.is_empty());
}

#[test]
fn assemble_stops_at_shortest_column() {
    let titles = vec!["a".to_string(), "b".to_string(), "c".to_string()];
    let links = vec!["l1".to_string(), "l2".to_string()];
    let snippets = vec!["s1".to_string(), "s2".to_string(), "s3".to_string()];
    let r = pyano::search::assemble_results(&titles, &links, &snippets, 10);
    assert_eq!(r.len(), 2);
    assert_eq!(r[1].title, "b");
    assert_eq!(r[1].link, "l2");
    assert_eq!(r[1].snippet, "s2");
    let one = pyano::search::assemble_results(&titles, &links, &snippets, 1);
    assert_eq!(one.len(), 1);
    let built = SearchResult::new("t".to_string(), "l".to_string(), "s".to_string());
    assert_eq!(built.link, "l");
}

#[test]
fn extract_links_keeps_string_links() {
    let v: serde_json::Value = serde_json::from_str(
        r#"{"query": "q", "results": [{"link": "a.com"}, {"title": "no link"}, {"link": 3}, {"link": "b.org"}]}"#,
    )
    .unwrap();
    let links = DuckDuckGoSearchResults::extract_links_from_results(v);
    assert_eq!(links, vec!["a.com".to_string(), "b.org".to_string()]);
}

#[test]
fn extract_links_without_results_array() {
    let v: serde_json::Value = serde_json::from_str(r#"{"query": "q", "error": "failed"}"#).unwrap();
    assert!(DuckDuckGoSearchResults::extract_links_from_results(v).is_empty());
    let w: serde_json::Value = serde_json::from_str(r#"{"results": "text"}"#).unwrap();
    assert!(DuckDuckGoSearchResults::extract_links_from_results(w).is_empty());
}

#[test]
fn links_of_filters_missing_fields() {
    let fields = Some(vec![None, Some("x".to_string()), None, Some("y".to_string())]);
    assert_eq!(pyano::search::links_of(&fields), vec!["x".to_string(), "y".to_string()]);
    assert!(pyano::search::links_of(&None).is_empty());
}

#[test]
fn tool_describes_itself() {
    let d = DuckDuckGoSearchResults::new().description();
    assert!(d.starts_with("Wrapper for DuckDuckGo Search API."));
    assert!(d.ends_with("Output is a JSON array of the query results."));
}

#[test]
fn search_errors_are_distinct() {
    assert_ne!(SearchError::InvalidUrl, SearchError::InvalidSelector);
}

#[test]
fn missing_parts_become_empty() {
    let column = vec![Some("a".to_string()), None, Some(" b ".to_string())];
    assert_eq!(
        pyano::search::fill_missing(&column),
        vec!["a".to_string(), String::new(), " b ".to_string()]
    );
}

#[test]
fn links_lose_unicode_white_space() {
    let page = "<div class=\"web-result\"><a class=\"result__url\">\u{a0}\u{3000} x.com/a b\t\u{2028}</a></div>";
    let results = DuckDuckGoSearchResults::new().results_from_page(page).unwrap();
    assert_eq!(results.len(), 1);
    assert_eq!(results[0].link, "x.com/a b");
    assert_eq!(results[0].title, "");
}

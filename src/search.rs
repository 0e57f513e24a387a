//! A web search tool over the HTML results page of DuckDuckGo.
//!
//! Fetching the page is left to the caller; this module builds the query
//! address and turns a fetched page into search results.
use vstd::prelude::*;

verus! {

/// One hit of a web search: its title, its link and the snippet shown under it.
pub struct SearchResult {
    pub title: String,
    pub link: String,
    pub snippet: String,
}

impl View for SearchResult {
    type V = (Seq<char>, Seq<char>, Seq<char>);

    open spec fn view(&self) -> Self::V {
        (self.title@, self.link@, self.snippet@)
    }
}

impl SearchResult {
    pub fn new(title: String, link: String, snippet: String) -> (r: SearchResult)
        ensures
            r@ == (title@, link@, snippet@),
    {
        SearchResult { title, link, snippet }
    }
}

/// Why a search page could not be turned into results.
#[derive(Debug, PartialEq, Eq, Structural)]
pub enum SearchError {
    /// The configured search address is not a valid URL.
    InvalidUrl,
    /// A CSS selector used to read the page does not parse.
    InvalidSelector,
}

/// The address that `Url::parse(base)` yields once the query pair
/// `key=value` is appended to it, or `None` where `base` does not parse.
pub uninterp spec fn url_with_query(base: Seq<char>, key: Seq<char>, value: Seq<char>) -> Option<
    Seq<char>,
>;

/// For each element of the HTML page `page` that the selector `outer`
/// matches, in the order in which the parser created the elements, the text of the first element below it that
/// `inner` matches, if any; `None` where a selector does not parse.
pub uninterp spec fn selected_texts(page: Seq<char>, outer: Seq<char>, inner: Seq<char>) -> Option<
    Seq<Option<Seq<char>>>,
>;

/// A character of the Unicode property White_Space.
pub open spec fn is_white_space(c: char) -> bool {
    ('\u{9}' <= c && c <= '\u{d}') || c == ' ' || c == '\u{85}' || c == '\u{a0}' || c == '\u{1680}'
        || ('\u{2000}' <= c && c <= '\u{200a}') || c == '\u{2028}' || c == '\u{2029}' || c == '\u{202f}'
        || c == '\u{205f}' || c == '\u{3000}'
}

/// A text without its leading white space.
pub open spec fn trim_start(s: Seq<char>) -> Seq<char>
    decreases s.len(),
{
    if s.len() > 0 && is_white_space(s[0]) {
        trim_start(s.drop_first())
    } else {
        s
    }
}

/// A text without its trailing white space.
pub open spec fn trim_end(s: Seq<char>) -> Seq<char>
    decreases s.len(),
{
    if s.len() > 0 && is_white_space(s.last()) {
        trim_end(s.drop_last())
    } else {
        s
    }
}

/// A text without its leading and trailing white space.
pub open spec fn trimmed(s: Seq<char>) -> Seq<char> {
    trim_end(trim_start(s))
}

/// Relies on `url::Url::parse`, `Url::query_pairs_mut` and
/// `form_urlencoded::Serializer::append_pair`: parses `base`, appends the
/// form-encoded pair `key=value` to its query and prints the address.
#[verifier::external_body]
fn add_query_pair(base: &str, key: &str, value: &str) -> (r: Option<String>)
    ensures
        r is None <==> url_with_query(base@, key@, value@) is None,
        r matches Some(s) ==> url_with_query(base@, key@, value@) == Some(s@),
{
    let mut url = url::Url::parse(base).ok()?;
    url.query_pairs_mut().append_pair(key, value);
    Some(url.to_string())
}

/// Relies on `scraper::Selector::parse`, `scraper::Html::parse_document`,
/// `Html::select`, `ElementRef::select` and `ElementRef::text`: the texts that
/// `selected_texts` names.
#[verifier::external_body]
fn select_first_texts(page: &str, outer: &str, inner: &str) -> (r: Option<Vec<Option<String>>>)
    ensures
        r is None <==> selected_texts(page@, outer@, inner@) is None,
        r matches Some(v) ==> selected_texts(page@, outer@, inner@) == Some(optional_views(v@)),
{
    let outer = scraper::Selector::parse(outer).ok()?;
    let inner = scraper::Selector::parse(inner).ok()?;
    let html = scraper::Html::parse_document(page);
    let mut texts = Vec::new();
    for e in html.select(&outer) {
        texts.push(e.select(&inner).next().map(|t| t.text().collect::<String>()));
    }
    Some(texts)
}

/// Relies on `str::trim`: the text without leading and trailing characters
/// of the Unicode property White_Space.
#[verifier::external_body]
fn trim_text(s: &str) -> (r: String)
    ensures
        r@ == trimmed(s@),
{
    s.trim().to_string()
}

/// The views of a sequence of strings.
pub open spec fn string_views(v: Seq<String>) -> Seq<Seq<char>> {
    v.map_values(|s: String| s@)
}

/// The views of a sequence of search results.
pub open spec fn result_views(v: Seq<SearchResult>) -> Seq<(Seq<char>, Seq<char>, Seq<char>)> {
    v.map_values(|x: SearchResult| x@)
}

pub open spec fn min_nat(a: nat, b: nat) -> nat {
    if a <= b {
        a
    } else {
        b
    }
}

/// How many results a page with these columns gives when at most `max` are kept.
pub open spec fn result_count(
    titles: Seq<Seq<char>>,
    links: Seq<Seq<char>>,
    snippets: Seq<Seq<char>>,
    max: nat,
) -> nat {
    min_nat(max, min_nat(titles.len(), min_nat(links.len(), snippets.len())))
}

/// The results made of the columns read from a page, row by row, at most `max` of them.
pub open spec fn assembled(
    titles: Seq<Seq<char>>,
    links: Seq<Seq<char>>,
    snippets: Seq<Seq<char>>,
    max: nat,
) -> Seq<(Seq<char>, Seq<char>, Seq<char>)> {
    Seq::new(
        result_count(titles, links, snippets, max),
        |i: int| (titles[i], links[i], snippets[i]),
    )
}

/// Each text that is present, and the empty text for each that is not.
pub open spec fn or_empty(texts: Seq<Option<Seq<char>>>) -> Seq<Seq<char>> {
    texts.map_values(|o: Option<Seq<char>>| match o {
        Some(t) => t,
        None => Seq::empty(),
    })
}

/// Every text of `texts` trimmed.
pub open spec fn all_trimmed(texts: Seq<Seq<char>>) -> Seq<Seq<char>> {
    texts.map_values(|s: Seq<char>| trimmed(s))
}

/// Joins the titles, links and snippets read from a page into results, in
/// page order, keeping at most `max_results` of them.
pub fn assemble_results(
    titles: &Vec<String>,
    links: &Vec<String>,
    snippets: &Vec<String>,
    max_results: usize,
) -> (r: Vec<SearchResult>)
    ensures
        result_views(r@) == assembled(
            string_views(titles@),
            string_views(links@),
            string_views(snippets@),
            max_results as nat,
        ),
{
    let ghost want = assembled(
        string_views(titles@),
        string_views(links@),
        string_views(snippets@),
        max_results as nat,
    );
    let mut n: usize = max_results;
    if titles.len() < n {
        n = titles.len();
    }
    if links.len() < n {
        n = links.len();
    }
    if snippets.len() < n {
        n = snippets.len();
    }
    assert(n == want.len());
    let mut out: Vec<SearchResult> = Vec::new();
    let mut i: usize = 0;
    while i < n
        invariant
            i <= n,
            out@.len() == i,
            n == want.len(),
            n <= titles.len(),
            n <= links.len(),
            n <= snippets.len(),
            want == assembled(
                string_views(titles@),
                string_views(links@),
                string_views(snippets@),
                max_results as nat,
            ),
            result_views(out@) == want.subrange(0, i as int),
        decreases n - i,
    {
        let r = SearchResult::new(titles[i].clone(), links[i].clone(), snippets[i].clone());
        let ghost prev = out@;
        out.push(r);
        proof {
            assert forall|k: int| 0 <= k < i implies out@[k]@ == want[k] by {
                assert(out@[k] == prev[k]);
                assert(result_views(prev)[k] == want.subrange(0, i as int)[k]);
            }
        }
        i = i + 1;
        assert(result_views(out@) =~= want.subrange(0, i as int));
    }
    assert(want.subrange(0, n as int) =~= want);
    out
}

/// Trims every text of a column.
fn trim_all(texts: &Vec<String>) -> (r: Vec<String>)
    ensures
        string_views(r@) == all_trimmed(string_views(texts@)),
{
    let mut out: Vec<String> = Vec::new();
    let mut i: usize = 0;
    while i < texts.len()
        invariant
            i <= texts.len(),
            out@.len() == i,
            string_views(out@) == all_trimmed(
                string_views(texts@),
            ).subrange(0, i as int),
        decreases texts.len() - i,
    {
        let t = trim_text(texts[i].as_str());
        let ghost prev = out@;
        out.push(t);
        proof {
            let want = all_trimmed(string_views(texts@));
            assert forall|k: int| 0 <= k < i implies out@[k]@ == want[k] by {
                assert(out@[k] == prev[k]);
                assert(string_views(prev)[k] == want.subrange(0, i as int)[k]);
            }
        }
        i = i + 1;
        assert(string_views(out@) =~= all_trimmed(
            string_views(texts@),
        ).subrange(0, i as int));
    }
    assert(all_trimmed(string_views(texts@)).subrange(0, i as int) =~= all_trimmed(
        string_views(texts@),
    ));
    out
}

#[verifier::external_type_specification]
#[verifier::external_body]
pub struct ExJsonValue(serde_json::Value);

/// The `"link"` field of each element of the `"results"` array of the JSON
/// value `response`, in the array's order, where that field is a string;
/// `None` where `"results"` is not an array.
pub uninterp spec fn json_link_fields(response: serde_json::Value) -> Option<Seq<Option<Seq<char>>>>;

/// Relies on `serde_json::Value`'s indexing by a key and on `Value::as_array`
/// and `Value::as_str`: the `"link"` field of each element of the `"results"`
/// array of `response`, where that field is a string; `None` where
/// `"results"` is not an array.
#[verifier::external_body]
fn link_fields(response: &serde_json::Value) -> (r: Option<Vec<Option<String>>>)
    ensures
        r is None <==> json_link_fields(*response) is None,
        r matches Some(v) ==> json_link_fields(*response) == Some(optional_views(v@)),
{
    response["results"].as_array().map(
        |a| a.iter().map(|x| x["link"].as_str().map(|s| s.to_string())).collect(),
    )
}

/// The views of optional strings.
pub open spec fn optional_views(v: Seq<Option<String>>) -> Seq<Option<Seq<char>>> {
    v.map_values(|o: Option<String>| match o {
        Some(s) => Some(s@),
        None => None,
    })
}

/// The texts that are present, in order.
pub open spec fn present(v: Seq<Option<Seq<char>>>) -> Seq<Seq<char>>
    decreases v.len(),
{
    if v.len() == 0 {
        Seq::empty()
    } else {
        let rest = present(v.drop_last());
        match v.last() {
            Some(t) => rest.push(t),
            None => rest,
        }
    }
}

/// The links present in the optional list of optional link fields `f`.
pub open spec fn links_in(f: Option<Vec<Option<String>>>) -> Seq<Seq<char>> {
    match f {
        Some(v) => present(optional_views(v@)),
        None => Seq::empty(),
    }
}

/// The texts present before position `k` come first among all present texts.
proof fn lemma_present_prefix(v: Seq<Option<Seq<char>>>, k: int)
    requires
        0 <= k <= v.len(),
    ensures
        present(v.subrange(0, k)).len() <= present(v).len(),
        present(v).subrange(0, present(v.subrange(0, k)).len() as int) == present(v.subrange(0, k)),
    decreases v.len(),
{
    if k == v.len() {
        assert(v.subrange(0, k) =~= v);
        assert(present(v).subrange(0, present(v).len() as int) =~= present(v));
    } else {
        let w = v.drop_last();
        assert(w.subrange(0, k) =~= v.subrange(0, k));
        lemma_present_prefix(w, k);
        let n = present(v.subrange(0, k)).len() as int;
        assert(present(v).subrange(0, n) =~= present(w).subrange(0, n));
    }
}

/// A text present at position `i` stands in `present(v)` at the number of
/// texts present before it.
proof fn lemma_present_at(v: Seq<Option<Seq<char>>>, i: int)
    requires
        0 <= i < v.len(),
        v[i] is Some,
    ensures
        present(v.subrange(0, i + 1)).len() == present(v.subrange(0, i)).len() + 1,
        present(v.subrange(0, i)).len() < present(v).len(),
        present(v)[present(v.subrange(0, i)).len() as int] == v[i]->0,
{
    assert(v.subrange(0, i + 1).drop_last() =~= v.subrange(0, i));
    lemma_present_prefix(v, i + 1);
    let n = present(v.subrange(0, i)).len() as int;
    assert(present(v).subrange(0, n + 1)[n] == present(v.subrange(0, i + 1))[n]);
}

/// Links keep their order: of two present texts, the earlier one comes first
/// among the present texts.
pub proof fn lemma_present_keeps_order(v: Seq<Option<Seq<char>>>, i: int, j: int)
    requires
        0 <= i < j < v.len(),
        v[i] is Some,
        v[j] is Some,
    ensures
        exists|p: int, q: int|
            0 <= p < q < present(v).len() && present(v)[p] == v[i]->0 && present(v)[q] == v[j]->0,
{
    lemma_present_at(v, i);
    lemma_present_at(v, j);
    let w = v.subrange(0, j);
    assert(w.subrange(0, i + 1) =~= v.subrange(0, i + 1));
    lemma_present_prefix(w, i + 1);
    let p = present(v.subrange(0, i)).len() as int;
    let q = present(v.subrange(0, j)).len() as int;
    assert(0 <= p < q < present(v).len() && present(v)[p] == v[i]->0 && present(v)[q] == v[j]->0);
}

/// The links of a response read as a list of optional link fields: those
/// that are present, in order; none where the list itself is missing.
pub fn links_of(fields: &Option<Vec<Option<String>>>) -> (r: Vec<String>)
    ensures
        string_views(r@) == links_in(*fields),
{
    let mut out: Vec<String> = Vec::new();
    match fields {
        None => {
            assert(string_views(out@) =~= Seq::empty());
            out
        },
        Some(f) => {
            let ghost views = optional_views(f@);
            let mut i: usize = 0;
            while i < f.len()
                invariant
                    i <= f.len(),
                    views == optional_views(f@),
                    string_views(out@) == present(views.subrange(0, i as int)),
                decreases f.len() - i,
            {
                assert(views.subrange(0, i + 1).drop_last() =~= views.subrange(0, i as int));
                match &f[i] {
                    Some(link) => {
                        let ghost prev = out@;
                        out.push(link.clone());
                        assert(string_views(out@) =~= string_views(prev).push(link@));
                    },
                    None => {},
                }
                i = i + 1;
            }
            assert(views.subrange(0, i as int) =~= views);
            out
        },
    }
}

/// The texts of a column, the empty text standing for each missing one.
pub fn fill_missing(texts: &Vec<Option<String>>) -> (r: Vec<String>)
    ensures
        string_views(r@) == or_empty(optional_views(texts@)),
{
    let ghost want = or_empty(optional_views(texts@));
    let mut out: Vec<String> = Vec::new();
    let mut i: usize = 0;
    while i < texts.len()
        invariant
            i <= texts.len(),
            want == or_empty(optional_views(texts@)),
            out@.len() == i,
            forall|k: int| 0 <= k < i ==> (#[trigger] out@[k])@ == want[k],
        decreases texts.len() - i,
    {
        let t = match &texts[i] {
            Some(s) => s.clone(),
            None => String::new(),
        };
        out.push(t);
        i = i + 1;
    }
    assert(string_views(out@) =~= want);
    out
}

/// The address of DuckDuckGo's HTML results page.
pub open spec fn search_address() -> Seq<char> {
    "https://duckduckgo.com/html/"@
}

/// The text by which the tool describes itself.
pub open spec fn tool_description() -> Seq<char> {
    "Wrapper for DuckDuckGo Search API. Useful for when you need to answer questions about current events. Always one of the first options when you need to find information on internet. Input should be a search query. Output is a JSON array of the query results."@
}

/// A search tool that reads the HTML results page of DuckDuckGo and keeps
/// the first few hits.
pub struct DuckDuckGoSearchResults {
    url: String,
    max_results: usize,
}

impl DuckDuckGoSearchResults {
    pub closed spec fn spec_url(&self) -> Seq<char> {
        self.url@
    }

    pub closed spec fn spec_max_results(&self) -> nat {
        self.max_results as nat
    }

    /// A tool aimed at DuckDuckGo's results page that keeps four hits.
    pub fn new() -> (r: Self)
        ensures
            r.spec_url() == search_address(),
            r.spec_max_results() == 4,
    {
        DuckDuckGoSearchResults { url: "https://duckduckgo.com/html/".to_owned(), max_results: 4 }
    }

    /// The same tool, keeping at most `max_results` hits.
    pub fn with_max_results(self, max_results: usize) -> (r: Self)
        ensures
            r.spec_url() == self.spec_url(),
            r.spec_max_results() == max_results,
    {
        DuckDuckGoSearchResults { url: self.url, max_results }
    }

    /// How many hits a search keeps at most.
    pub fn max_results(&self) -> (r: usize)
        ensures
            r == self.spec_max_results(),
    {
        self.max_results
    }

    /// The name under which the tool is offered.
    pub fn name(&self) -> (r: String)
        ensures
            r@ == "DuckDuckGoSearch"@,
    {
        "DuckDuckGoSearch".to_owned()
    }

    /// The links of a search response in JSON: the string `"link"` field of
    /// each element of its `"results"` array, in order; none where there is no
    /// such array.
    pub fn extract_links_from_results(response: serde_json::Value) -> (r: Vec<String>)
        ensures
            string_views(r@) == match json_link_fields(response) {
                Some(v) => present(v),
                None => Seq::<Seq<char>>::empty(),
            },
    {
        let fields = link_fields(&response);
        links_of(&fields)
    }

    /// What the tool tells a model about itself.
    pub fn description(&self) -> (r: String)
        ensures
            r@ == tool_description(),
    {
        "Wrapper for DuckDuckGo Search API. Useful for when you need to answer questions about current events. Always one of the first options when you need to find information on internet. Input should be a search query. Output is a JSON array of the query results.".to_owned()
    }

    /// The address to fetch for `query`: the search address with the query
    /// pair `q=query` appended.
    pub fn query_url(&self, query: &str) -> (r: Result<String, SearchError>)
        ensures
            r is Err <==> url_with_query(self.spec_url(), "q"@, query@) is None,
            r matches Err(e) ==> e == SearchError::InvalidUrl,
            r matches Ok(u) ==> url_with_query(self.spec_url(), "q"@, query@) == Some(u@),
    {
        match add_query_pair(self.url.as_str(), "q", query) {
            Some(u) => Ok(u),
            None => Err(SearchError::InvalidUrl),
        }
    }

    /// The hits of a fetched results page, in page order, at most
    /// `max_results` of them. A part missing from a hit is empty; links are
    /// trimmed of surrounding white space.
    pub fn results_from_page(&self, page: &str) -> (r: Result<Vec<SearchResult>, SearchError>)
        ensures
            ({
                let t = selected_texts(page@, ".web-result"@, ".result__a"@);
                let l = selected_texts(page@, ".web-result"@, ".result__url"@);
                let s = selected_texts(page@, ".web-result"@, ".result__snippet"@);
                &&& r is Err <==> (t is None || l is None || s is None)
                &&& r matches Err(e) ==> e == SearchError::InvalidSelector
                &&& r matches Ok(v) ==> result_views(v@) == assembled(
                    or_empty(t->0),
                    all_trimmed(or_empty(l->0)),
                    or_empty(s->0),
                    self.spec_max_results(),
                )
            }),
    {
        let titles = match select_first_texts(page, ".web-result", ".result__a") {
            Some(v) => v,
            None => return Err(SearchError::InvalidSelector),
        };
        let links = match select_first_texts(page, ".web-result", ".result__url") {
            Some(v) => v,
            None => return Err(SearchError::InvalidSelector),
        };
        let snippets = match select_first_texts(page, ".web-result", ".result__snippet") {
            Some(v) => v,
            None => return Err(SearchError::InvalidSelector),
        };
        let titles = fill_missing(&titles);
        let links = trim_all(&fill_missing(&links));
        let snippets = fill_missing(&snippets);
        Ok(assemble_results(&titles, &links, &snippets, self.max_results))
    }
}

impl Default for DuckDuckGoSearchResults {
    fn default() -> (r: Self)
        ensures
            r.spec_url() == search_address(),
            r.spec_max_results() == 4,
    {
        DuckDuckGoSearchResults::new()
    }
}

} // verus!

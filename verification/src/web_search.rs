//! Web search (`web_search`) through DuckDuckGo's HTML page, which needs no
//! API key: the query and result count a call asks for, the address that is
//! fetched, and the hits read back from the page. The HTTP request is the
//! caller's.
use vstd::prelude::*;
use crate::json_text::{json_quoted, json_string};
use crate::kits::{join_strings, join_with};
use crate::oauth::{last_value, parse_url_parts, parse_with_params, url_path_query, url_with_params};
use scraper::{ElementRef, Html, Selector};
use crate::text::{chars_of, concat, pair_views, push_pair, same_text, trim, trim_str, views};

verus! {

/// The page that answers searches.
pub const SEARCH_ENDPOINT: &'static str = "https://html.duckduckgo.com/html/";

/// The host that relative result links are resolved against.
pub const RESULT_ORIGIN: &'static str = "https://html.duckduckgo.com";

/// The user agent the search request is sent with.
pub const SEARCH_USER_AGENT: &'static str = "Mozilla/5.0 (compatible; heart-portal/0.1; +https://example.invalid)";

/// Seconds the search request may take.
pub const SEARCH_TIMEOUT_SECS: u64 = 10;

/// Results returned when the call names no count.
pub const DEFAULT_RESULT_COUNT: u8 = 5;

/// Why a search is refused.
#[derive(Debug)]
pub enum WebSearchError {
    MissingQuery,
    EmptyQuery,
    InvalidUrl(String),
}

impl WebSearchError {
    /// The error's message.
    pub fn message(&self) -> (r: String)
        ensures
            match self {
                WebSearchError::MissingQuery => r@ == "Missing 'query' argument"@,
                WebSearchError::EmptyQuery => r@ == "'query' must not be empty"@,
                WebSearchError::InvalidUrl(e) => r@ == "Invalid query URL: "@ + e@,
            },
    {
        match self {
            WebSearchError::MissingQuery => String::from_str("Missing 'query' argument"),
            WebSearchError::EmptyQuery => String::from_str("'query' must not be empty"),
            WebSearchError::InvalidUrl(e) => concat("Invalid query URL: ", e.as_str()),
        }
    }
}

/// The query of a search: required, trimmed, and not empty once trimmed.
pub fn search_query(query: Option<&str>) -> (r: Result<String, WebSearchError>)
    ensures
        match query {
            None => r matches Err(WebSearchError::MissingQuery),
            Some(q) => if trim(q@).len() == 0 {
                r matches Err(WebSearchError::EmptyQuery)
            } else {
                r matches Ok(t) && t@ == trim(q@)
            },
        },
{
    let q = match query {
        Some(q) => q,
        None => {
            return Err(WebSearchError::MissingQuery);
        },
    };
    let t = trim_str(q);
    if t.as_str().unicode_len() == 0 {
        return Err(WebSearchError::EmptyQuery);
    }
    Ok(t)
}

/// How many results a search returns: the count asked for, read as a byte
/// (`as u8`, so only its low eight bits count) and held to 1..=10; 5 when
/// no positive count is named.
pub open spec fn result_count_spec(count: Option<u64>) -> u8 {
    match count {
        Some(n) => if n > 0 {
            let b = n % 256;
            if b < 1 {
                1
            } else if b > 10 {
                10
            } else {
                b as u8
            }
        } else {
            DEFAULT_RESULT_COUNT
        },
        None => DEFAULT_RESULT_COUNT,
    }
}

/// How many results a search returns (see [`result_count_spec`]).
pub fn result_count(count: Option<u64>) -> (r: u8)
    ensures
        r == result_count_spec(count),
{
    match count {
        Some(n) => {
            if n > 0 {
                let b: u64 = n % 256;
                if b < 1 {
                    1
                } else if b > 10 {
                    10
                } else {
                    b as u8
                }
            } else {
                DEFAULT_RESULT_COUNT
            }
        },
        None => DEFAULT_RESULT_COUNT,
    }
}

/// The `Display` text of a `url::ParseError`. Nothing is stated of it: it
/// is a message for people.
#[verifier::external_body]
fn url_error_text(e: &url::ParseError) -> (r: String) {
    format!("{}", e)
}

/// The page fetched for `query`: the search endpoint with `q` set to it.
pub fn search_url(query: &str) -> (r: Result<String, WebSearchError>)
    ensures
        match url_with_params(SEARCH_ENDPOINT@, seq![("q"@, query@)]) {
            Some(u) => r matches Ok(s) && s@ == u,
            None => r matches Err(WebSearchError::InvalidUrl(_)),
        },
{
    let mut pairs: Vec<(String, String)> = Vec::new();
    push_pair(&mut pairs, "q", query.to_owned());
    assert(pair_views(pairs@) =~= seq![("q"@, query@)]);
    match parse_with_params(SEARCH_ENDPOINT, &pairs) {
        Ok(u) => Ok(u),
        Err(e) => Err(WebSearchError::InvalidUrl(url_error_text(&e))),
    }
}

/// The value of the first pair named `key`.
pub open spec fn first_value(pairs: Seq<(Seq<char>, Seq<char>)>, key: Seq<char>) -> Option<Seq<char>>
    decreases pairs.len(),
{
    if pairs.len() == 0 {
        None
    } else if pairs[0].0 == key {
        Some(pairs[0].1)
    } else {
        first_value(pairs.drop_first(), key)
    }
}

/// The absolute form of a result link: `//host/...` gets `https:`, a path
/// gets the search host, anything else is kept.
pub open spec fn absolute_link(href: Seq<char>) -> Seq<char> {
    if href.len() >= 2 && href[0] == '/' && href[1] == '/' {
        "https:"@ + href
    } else if href.len() >= 1 && href[0] == '/' {
        RESULT_ORIGIN@ + href
    } else {
        href
    }
}

/// Where a result link leads: result links go through a redirect whose
/// `uddg` query parameter holds the target; a link without one is kept.
pub open spec fn result_url_spec(href: Seq<char>) -> Seq<char> {
    match url_path_query(absolute_link(href)) {
        Some((_, pairs)) => match first_value(pairs, "uddg"@) {
            Some(v) => v,
            None => href,
        },
        None => href,
    }
}

fn first_pair_value(pairs: &Vec<(String, String)>, key: &str) -> (r: Option<String>)
    ensures
        match first_value(pair_views(pairs@), key@) {
            Some(v) => r matches Some(s) && s@ == v,
            None => r is None,
        },
{
    let mut i: usize = 0;
    assert(pair_views(pairs@).skip(0) =~= pair_views(pairs@));
    while i < pairs.len()
        invariant
            i <= pairs@.len(),
            first_value(pair_views(pairs@).skip(i as int), key@) == first_value(pair_views(pairs@), key@),
        decreases pairs.len() - i,
    {
        proof {
            assert(pair_views(pairs@).skip(i as int).drop_first() =~= pair_views(pairs@).skip(i + 1));
        }
        if same_text(pairs[i].0.as_str(), key) {
            return Some(pairs[i].1.clone());
        }
        i = i + 1;
    }
    None
}

/// Where the result link `href` leads (see [`result_url_spec`]).
pub fn resolve_result_url(href: &str) -> (r: String)
    ensures
        r@ == result_url_spec(href@),
{
    let cs = chars_of(href);
    let full = if cs.len() >= 2 && cs[0] == '/' && cs[1] == '/' {
        concat("https:", href)
    } else if cs.len() >= 1 && cs[0] == '/' {
        concat(RESULT_ORIGIN, href)
    } else {
        href.to_owned()
    };
    match parse_url_parts(full.as_str()) {
        Ok(u) => match first_pair_value(&u.query, "uddg") {
            Some(v) => v,
            None => href.to_owned(),
        },
        Err(_) => href.to_owned(),
    }
}

/// What the page shows of one `.result` element: its title link
/// (`a.result__a`) as its `href` (empty when it has none) and its text,
/// the text of its first `a.result__snippet`, and the text of its first
/// `.result__snippet`.
#[derive(Debug)]
pub struct ResultBlock {
    pub title: Option<(String, String)>,
    pub snippet_link: Option<String>,
    pub snippet_any: Option<String>,
}

/// The view of an optional pair of texts.
pub open spec fn title_view(t: Option<(String, String)>) -> Option<(Seq<char>, Seq<char>)> {
    match t {
        Some((h, x)) => Some((h@, x@)),
        None => None,
    }
}

/// The view of an optional text.
pub open spec fn text_view(t: Option<String>) -> Option<Seq<char>> {
    match t {
        Some(x) => Some(x@),
        None => None,
    }
}

/// The view of a result block.
pub open spec fn block_view(b: ResultBlock) -> (Option<(Seq<char>, Seq<char>)>, Option<Seq<char>>, Option<Seq<char>>) {
    (title_view(b.title), text_view(b.snippet_link), text_view(b.snippet_any))
}

/// The views of result blocks.
pub open spec fn block_views(bs: Seq<ResultBlock>) -> Seq<(Option<(Seq<char>, Seq<char>)>, Option<Seq<char>>, Option<Seq<char>>)> {
    bs.map_values(|b: ResultBlock| block_view(b))
}

/// The `.result` elements of the HTML page `html`, in document order, as
/// the `scraper` crate finds them (see [`ResultBlock`]).
pub uninterp spec fn html_result_blocks(html: Seq<char>) -> Seq<(Option<(Seq<char>, Seq<char>)>, Option<Seq<char>>, Option<Seq<char>>)>;

/// `scraper::Html::parse_document` and `select`: the `.result` elements of
/// `html` and what the hits are read from in each (named by
/// [`html_result_blocks`]).
#[verifier::external_body]
fn result_blocks(html: &str) -> (r: Vec<ResultBlock>)
    ensures
        block_views(r@) == html_result_blocks(html@),
{
    let sel = |s| Selector::parse(s).ok();
    let (Some(res), Some(ta), Some(sa), Some(sd)) =
        (sel(".result"), sel("a.result__a"), sel("a.result__snippet"), sel(".result__snippet")) else { return Vec::new() };
    let text = |e: ElementRef| e.text().collect();
    let first = |b: ElementRef, s| b.select(s).next().map(text);
    Html::parse_document(html).select(&res).map(|b| ResultBlock {
        title: b.select(&ta).next().map(|t| (t.attr("href").unwrap_or_default().to_string(), text(t))),
        snippet_link: first(b, &sa),
        snippet_any: first(b, &sd),
    }).collect()
}

/// One search hit.
#[derive(Debug)]
pub struct SearchHit {
    pub title: String,
    pub url: String,
    pub snippet: String,
}

/// The view of a hit: title, URL, snippet.
pub open spec fn hit_view(h: SearchHit) -> (Seq<char>, Seq<char>, Seq<char>) {
    (h.title@, h.url@, h.snippet@)
}

/// The views of hits.
pub open spec fn hit_views(hs: Seq<SearchHit>) -> Seq<(Seq<char>, Seq<char>, Seq<char>)> {
    hs.map_values(|h: SearchHit| hit_view(h))
}

/// The snippet of a block: the trimmed text of its snippet link, or, when
/// that is missing or blank, the trimmed text of its first snippet element.
pub open spec fn snippet_spec(link: Option<Seq<char>>, any: Option<Seq<char>>) -> Seq<char> {
    let first = match link {
        Some(t) => trim(t),
        None => Seq::empty(),
    };
    if first.len() > 0 {
        first
    } else {
        match any {
            Some(t) => trim(t),
            None => Seq::empty(),
        }
    }
}

/// The hit a block gives: none without a title link, with neither title
/// text nor `href`, or when its link resolves to nothing.
pub open spec fn block_hit(b: (Option<(Seq<char>, Seq<char>)>, Option<Seq<char>>, Option<Seq<char>>)) -> Option<
    (Seq<char>, Seq<char>, Seq<char>),
> {
    match b.0 {
        None => None,
        Some((href, text)) => {
            let title = trim(text);
            let url = result_url_spec(href);
            if title.len() == 0 && href.len() == 0 {
                None
            } else if url.len() == 0 {
                None
            } else {
                Some((title, url, snippet_spec(b.1, b.2)))
            }
        },
    }
}

/// The hits of the blocks, in order.
pub open spec fn block_hits(bs: Seq<(Option<(Seq<char>, Seq<char>)>, Option<Seq<char>>, Option<Seq<char>>)>) -> Seq<
    (Seq<char>, Seq<char>, Seq<char>),
>
    decreases bs.len(),
{
    if bs.len() == 0 {
        Seq::empty()
    } else {
        match block_hit(bs.last()) {
            Some(h) => block_hits(bs.drop_last()).push(h),
            None => block_hits(bs.drop_last()),
        }
    }
}

/// The first `limit` hits of the blocks.
pub open spec fn hits_spec(bs: Seq<(Option<(Seq<char>, Seq<char>)>, Option<Seq<char>>, Option<Seq<char>>)>, limit: nat) -> Seq<
    (Seq<char>, Seq<char>, Seq<char>),
> {
    let all = block_hits(bs);
    if all.len() <= limit {
        all
    } else {
        all.take(limit as int)
    }
}

fn trimmed(t: &Option<String>) -> (r: String)
    ensures
        r@ == (match text_view(*t) {
            Some(x) => trim(x),
            None => Seq::empty(),
        }),
{
    match t {
        Some(x) => trim_str(x.as_str()),
        None => String::new(),
    }
}

/// The hit of one block (see [`block_hit`]).
pub fn hit_of_block(b: &ResultBlock) -> (r: Option<SearchHit>)
    ensures
        match block_hit(block_view(*b)) {
            Some(h) => r matches Some(x) && hit_view(x) == h,
            None => r is None,
        },
{
    let (href, text) = match &b.title {
        Some(t) => (t.0.as_str(), t.1.as_str()),
        None => {
            return None;
        },
    };
    let title = trim_str(text);
    if title.as_str().unicode_len() == 0 && href.unicode_len() == 0 {
        return None;
    }
    let url = resolve_result_url(href);
    if url.as_str().unicode_len() == 0 {
        return None;
    }
    let first = trimmed(&b.snippet_link);
    let snippet = if first.as_str().unicode_len() > 0 {
        first
    } else {
        trimmed(&b.snippet_any)
    };
    Some(SearchHit { title, url, snippet })
}

proof fn lemma_block_hits_prefix(bs: Seq<(Option<(Seq<char>, Seq<char>)>, Option<Seq<char>>, Option<Seq<char>>)>, i: int)
    requires
        0 <= i <= bs.len(),
    ensures
        block_hits(bs.take(i)).len() <= block_hits(bs).len(),
        block_hits(bs).take(block_hits(bs.take(i)).len() as int) == block_hits(bs.take(i)),
    decreases bs.len() - i,
{
    if i < bs.len() {
        lemma_block_hits_prefix(bs, i + 1);
        assert(bs.take(i + 1).drop_last() =~= bs.take(i));
        let a = block_hits(bs.take(i));
        let b = block_hits(bs.take(i + 1));
        let c = block_hits(bs);
        assert(c.take(b.len() as int).take(a.len() as int) =~= c.take(a.len() as int));
        assert(b.take(a.len() as int) =~= a);
    } else {
        assert(bs.take(i) =~= bs);
        assert(block_hits(bs).take(block_hits(bs).len() as int) =~= block_hits(bs));
    }
}

/// The first `limit` hits of the blocks (see [`hits_spec`]).
pub fn hits_from_blocks(blocks: &Vec<ResultBlock>, limit: usize) -> (r: Vec<SearchHit>)
    ensures
        hit_views(r@) == hits_spec(block_views(blocks@), limit as nat),
        r@.len() <= limit,
{
    let ghost bs = block_views(blocks@);
    let mut out: Vec<SearchHit> = Vec::new();
    let mut i: usize = 0;
    proof {
        assert(bs.take(0) =~= Seq::<(Option<(Seq<char>, Seq<char>)>, Option<Seq<char>>, Option<Seq<char>>)>::empty());
        assert(hit_views(out@) =~= Seq::<(Seq<char>, Seq<char>, Seq<char>)>::empty());
        assert(bs.take(bs.len() as int) =~= bs);
    }
    while i < blocks.len()
        invariant
            i <= blocks@.len(),
            bs == block_views(blocks@),
            bs.len() == blocks@.len(),
            bs.take(bs.len() as int) == bs,
            out@.len() <= limit,
            hit_views(out@) == (if block_hits(bs.take(i as int)).len() <= limit {
                block_hits(bs.take(i as int))
            } else {
                block_hits(bs.take(i as int)).take(limit as int)
            }),
        ensures
            hit_views(out@) == hits_spec(bs, limit as nat),
        decreases blocks.len() - i,
    {
        if out.len() >= limit {
            proof {
                let a = block_hits(bs.take(i as int));
                let full = block_hits(bs);
                lemma_block_hits_prefix(bs, i as int);
                assert(a.len() >= limit);
                assert(full.take(limit as int) =~= a.take(limit as int));
                if a.len() == limit {
                    assert(a.take(limit as int) =~= a);
                }
                if full.len() <= limit {
                    assert(full.take(limit as int) =~= full);
                }
            }
            break;
        }
        let h = hit_of_block(&blocks[i]);
        proof {
            assert(bs.take(i + 1).drop_last() =~= bs.take(i as int));
            assert(bs.take(i + 1).last() == block_view(blocks@[i as int]));
        }
        match h {
            Some(x) => {
                let ghost before = out@;
                out.push(x);
                proof {
                    assert(hit_views(out@) =~= hit_views(before).push(hit_view(x)));
                }
            },
            None => {},
        }
        i = i + 1;
    }
    out
}

/// The hits of the search page `html`: at most `limit`, in page order.
pub fn parse_hits(html: &str, limit: usize) -> (r: Vec<SearchHit>)
    ensures
        hit_views(r@) == hits_spec(html_result_blocks(html@), limit as nat),
        r@.len() <= limit,
{
    let blocks = result_blocks(html);
    hits_from_blocks(&blocks, limit)
}

/// The JSON text of the hits: an array of `{"title","url","snippet"}`
/// objects, in order.
pub open spec fn hits_json_spec(hs: Seq<(Seq<char>, Seq<char>, Seq<char>)>) -> Seq<char> {
    "["@ + join_with(
        hs.map_values(|h: (Seq<char>, Seq<char>, Seq<char>)| "{\"title\":"@ + json_quoted(h.0)
            + ",\"url\":"@ + json_quoted(h.1) + ",\"snippet\":"@ + json_quoted(h.2) + "}"@),
        ","@,
    ) + "]"@
}

/// The JSON text of the hits (see [`hits_json_spec`]).
pub fn hits_json(hs: &Vec<SearchHit>) -> (r: String)
    ensures
        r@ == hits_json_spec(hit_views(hs@)),
{
    let mut parts: Vec<String> = Vec::new();
    let mut i: usize = 0;
    while i < hs.len()
        invariant
            i <= hs@.len(),
            views(parts@) == hit_views(hs@).take(i as int).map_values(
                |h: (Seq<char>, Seq<char>, Seq<char>)| "{\"title\":"@ + json_quoted(h.0) + ",\"url\":"@
                    + json_quoted(h.1) + ",\"snippet\":"@ + json_quoted(h.2) + "}"@,
            ),
        decreases hs.len() - i,
    {
        let h = &hs[i];
        let mut t = String::from_str("{\"title\":");
        t.append(json_string(h.title.as_str()).as_str());
        t.append(",\"url\":");
        t.append(json_string(h.url.as_str()).as_str());
        t.append(",\"snippet\":");
        t.append(json_string(h.snippet.as_str()).as_str());
        t.append("}");
        let ghost before = parts@;
        parts.push(t);
        proof {
            assert(views(parts@) =~= views(before).push(t@));
            assert(views(parts@) =~= hit_views(hs@).take(i + 1).map_values(
                |h: (Seq<char>, Seq<char>, Seq<char>)| "{\"title\":"@ + json_quoted(h.0) + ",\"url\":"@
                    + json_quoted(h.1) + ",\"snippet\":"@ + json_quoted(h.2) + "}"@,
            ));
        }
        i = i + 1;
    }
    proof {
        assert(hit_views(hs@).take(hs@.len() as int) =~= hit_views(hs@));
    }
    let mut r = String::from_str("[");
    r.append(join_strings(&parts, ",").as_str());
    r.append("]");
    r
}

} // verus!

use heart_portal::web_search::{
    hits_json, parse_hits, resolve_result_url, result_count, search_query, search_url, SearchHit, WebSearchError,
};

#[test]
fn parses_sample_ddg_html() {
    let html = r#"<!DOCTYPE html><html><body>
<div class="result results_links results_links_deep web-result">
  <div class="links_main links_deep result__body">
    <h2 class="result__title">
      <a class="result__a" href="//duckduckgo.com/l/?uddg=https%3A%2F%2Fexample.com%2F">Example Domain</a>
    </h2>
    <a class="result__snippet">This domain is for use in examples.</a>
  </div>
</div>
</body></html>"#;
    let hits = parse_hits(html, 10);
    assert_eq!(hits.len(), 1);
    assert_eq!(hits[0].title, "Example Domain");
    assert_eq!(hits[0].url, "https://example.com/");
    assert!(hits[0].snippet.contains("examples"));
}

#[test]
fn hits_stop_at_limit_and_skip_blocks_without_title() {
    let block = |t: &str| {
        format!(
            r#"<div class="result"><a class="result__a" href="https://{t}.org/">{t}</a><div class="result__snippet"> s-{t} </div></div>"#
        )
    };
    let html = format!(
        "<html><body>{}<div class=\"result\"><span>no link</span></div>{}{}</body></html>",
        block("one"),
        block("two"),
        block("three")
    );
    let hits = parse_hits(&html, 2);
    assert_eq!(hits.len(), 2);
    assert_eq!(hits[0].url, "https://one.org/");
    assert_eq!(hits[0].snippet, "s-one");
    assert_eq!(hits[1].title, "two");
    assert_eq!(parse_hits("<html></html>", 5).len(), 0);
}

#[test]
fn result_links_resolve_through_redirects() {
    assert_eq!(resolve_result_url("//duckduckgo.com/l/?uddg=https%3A%2F%2Fa.io%2Fx&rut=1"), "https://a.io/x");
    assert_eq!(resolve_result_url("/l/?uddg=https%3A%2F%2Fb.io"), "https://b.io");
    assert_eq!(resolve_result_url("https://c.io/page"), "https://c.io/page");
    assert_eq!(resolve_result_url("not a url"), "not a url");
}

#[test]
fn query_and_count_rules() {
    assert!(matches!(search_query(None), Err(WebSearchError::MissingQuery)));
    assert_eq!(search_query(Some("   ")).unwrap_err().message(), "'query' must not be empty");
    assert_eq!(search_query(Some("  rust verus ")).unwrap(), "rust verus");
    assert_eq!(result_count(None), 5);
    assert_eq!(result_count(Some(0)), 5);
    assert_eq!(result_count(Some(3)), 3);
    assert_eq!(result_count(Some(50)), 10);
    assert_eq!(result_count(Some(256)), 1);
    assert_eq!(search_url("a b").unwrap(), "https://html.duckduckgo.com/html/?q=a+b");
}

#[test]
fn hits_serialize_in_field_order() {
    let hs = vec![SearchHit { title: "T".to_string(), url: "u".to_string(), snippet: "s\"".to_string() }];
    assert_eq!(hits_json(&hs), "[{\"title\":\"T\",\"url\":\"u\",\"snippet\":\"s\\\"\"}]");
}

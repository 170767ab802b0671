use gunny_launcher::attr::{extract_attr, parse_dimensions};
use gunny_launcher::entities::html_decode;
use gunny_launcher::swf::extract_swf_info;

#[test]
fn attr_double_quoted() {
    let tag = r#"<embed src="game.swf" width="800""#;
    assert_eq!(extract_attr(tag, "src"), Some("game.swf".to_string()));
    assert_eq!(extract_attr(tag, "width"), Some("800".to_string()));
}

#[test]
fn attr_name_in_any_case() {
    let tag = r#"<EMBED SRC="Game.SWF""#;
    assert_eq!(extract_attr(tag, "src"), Some("Game.SWF".to_string()));
}

#[test]
fn attr_single_quoted() {
    let tag = "<embed src='movie.swf'";
    assert_eq!(extract_attr(tag, "src"), Some("movie.swf".to_string()));
}

#[test]
fn attr_unclosed_double_quote_falls_back_to_single() {
    let tag = "<embed src=\"abc src='d'";
    assert_eq!(extract_attr(tag, "src"), Some("d".to_string()));
}

#[test]
fn attr_missing() {
    assert_eq!(extract_attr("<embed width=10", "src"), None);
    assert_eq!(extract_attr("<embed src=\"open", "src"), None);
}

#[test]
fn attr_empty_value() {
    assert_eq!(extract_attr("<embed src=\"\"", "src"), Some(String::new()));
}

#[test]
fn attr_first_occurrence_wins() {
    let tag = r#"<x data-src="one" src="two""#;
    assert_eq!(extract_attr(tag, "src"), Some("one".to_string()));
}

#[test]
fn dimensions_both_present() {
    assert_eq!(parse_dimensions(r#"<embed width="800" height="600""#), Some((800, 600)));
}

#[test]
fn dimensions_plus_sign_and_limits() {
    assert_eq!(parse_dimensions(r#"<e width="+80" height='4294967295'"#), Some((80, 4294967295)));
    assert_eq!(parse_dimensions(r#"<e width="4294967296" height="1""#), None);
}

#[test]
fn dimensions_refused() {
    assert_eq!(parse_dimensions(r#"<e width="80px" height="60""#), None);
    assert_eq!(parse_dimensions(r#"<e width="80""#), None);
    assert_eq!(parse_dimensions(r#"<e width="" height="60""#), None);
    assert_eq!(parse_dimensions(r#"<e width="+" height="60""#), None);
    assert_eq!(parse_dimensions(r#"<e width="-1" height="60""#), None);
    assert_eq!(parse_dimensions(r#"<e width=" 8" height="60""#), None);
}

#[test]
fn decode_all_references() {
    assert_eq!(html_decode("a&amp;b&lt;c&gt;&quot;&#39;"), "a&b<c>\"'");
}

#[test]
fn decode_is_applied_in_turn() {
    assert_eq!(html_decode("&amp;lt;"), "<");
    assert_eq!(html_decode("&amp;amp;"), "&amp;");
}

#[test]
fn decode_leaves_other_text() {
    assert_eq!(html_decode("x&y &nbsp; z"), "x&y &nbsp; z");
    assert_eq!(html_decode("plain"), "plain");
    assert_eq!(html_decode(""), "");
}

#[test]
fn decode_without_ampersand_is_identity() {
    for s in ["", "game.swf?a=1", "<>\"'", "héllo wörld"] {
        assert_eq!(html_decode(s), s);
    }
}

#[test]
fn decode_never_lengthens() {
    for s in ["&amp;&lt;&gt;", "&&&", "a&#39;b", "&quot"] {
        assert!(html_decode(s).chars().count() <= s.chars().count());
    }
}

#[test]
fn swf_from_embed() {
    let html = r#"<html><body><EMBED src="http://cdn/game.swf?v=1&amp;x=2" width="1000" height="600"></body></html>"#;
    let info = extract_swf_info(html);
    assert_eq!(info.url, "http://cdn/game.swf?v=1&x=2");
    assert_eq!(info.dimensions, Some((1000, 600)));
}

#[test]
fn swf_embed_without_dimensions() {
    let info = extract_swf_info(r#"<embed src='a.swf'>"#);
    assert_eq!(info.url, "a.swf");
    assert_eq!(info.dimensions, None);
}

#[test]
fn swf_skips_embed_without_swf() {
    let html = r#"<embed src="video.mp4" width="1" height="2"><embed src="b.swf" width="3" height="4">"#;
    let info = extract_swf_info(html);
    assert_eq!(info.url, "b.swf");
    assert_eq!(info.dimensions, Some((3, 4)));
}

#[test]
fn swf_from_param_with_object_dimensions() {
    let html = r#"<object width="960" height="560" classid="x"><param name="quality" value="high"><PARAM NAME="movie" value="loader.swf"></object>"#;
    let info = extract_swf_info(html);
    assert_eq!(info.url, "loader.swf");
    assert_eq!(info.dimensions, Some((960, 560)));
}

#[test]
fn swf_from_param_single_quoted_name() {
    let html = "<param name='movie' value='m.swf'>";
    let info = extract_swf_info(html);
    assert_eq!(info.url, "m.swf");
    assert_eq!(info.dimensions, None);
}

#[test]
fn swf_embed_preferred_over_param() {
    let html = r#"<param name="movie" value="first.swf"><embed src="second.swf">"#;
    assert_eq!(extract_swf_info(html).url, "second.swf");
}

#[test]
fn swf_unclosed_tag_is_skipped() {
    let info = extract_swf_info(r#"<embed src="a.swf""#);
    assert_eq!(info.url, "");
    assert_eq!(info.dimensions, None);
}

#[test]
fn swf_none_found() {
    let info = extract_swf_info("<html><p>no movie here</p></html>");
    assert_eq!(info.url, "");
    assert_eq!(info.dimensions, None);
}

#[test]
fn swf_found_url_names_swf() {
    for html in [
        r#"<embed src="x.swf">"#,
        r#"<embed src="x.png">"#,
        r#"<param name="movie" value="y.swf">"#,
        "",
    ] {
        let info = extract_swf_info(html);
        assert!(info.url.is_empty() && info.dimensions.is_none() || info.url.contains(".swf"));
    }
}

#[test]
fn swf_url_comes_from_the_tag() {
    let html = r#"<p>x</p><Embed SRC="a&amp;b.swf">"#;
    let info = extract_swf_info(html);
    assert_eq!(info.url, "a&b.swf");
    let tag = &html[8..html.len() - 1];
    assert_eq!(html_decode(&extract_attr(tag, "src").unwrap()), info.url);
}

#[test]
fn attr_missing_when_unclosed_both_ways() {
    assert_eq!(extract_attr("<e src=\"a src='b", "src"), None);
    assert_eq!(extract_attr("<e href=\"a\"", "src"), None);
}

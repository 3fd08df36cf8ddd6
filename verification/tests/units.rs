//! Unit tests for the text utilities, the front-matter parser and the
//! gallery pieces.

use sitegen::front_matter::parse_front_matter;
use sitegen::front_matter::FrontMatterError;
use sitegen::gallery::escape_attribute;
use sitegen::gallery::gallery_config_path;
use sitegen::page::render_page;
use sitegen::text::file_stem;
use sitegen::text::is_markdown;
use sitegen::text::replace_all_str;
use sitegen::text::str_le;

#[test]
fn missing_delimiters_fail_the_parse() {
    let r = parse_front_matter("no delimiters at all");
    assert_eq!(r.err(), Some(FrontMatterError::MissingDelimiters));
}

#[test]
fn one_delimiter_is_not_enough() {
    let r = parse_front_matter("preamble---title: T\nno second marker");
    assert_eq!(r.err(), Some(FrontMatterError::MissingDelimiters));
}

#[test]
fn front_matter_splits_three_parts() {
    let text = "pre---\ntitle: T\ndate: D\ntagline: G\n---the body";
    let (meta, body) = parse_front_matter(text).expect("well-formed front matter");
    assert_eq!(meta.title, "T");
    assert_eq!(meta.date, "D");
    assert_eq!(meta.tagline, "G");
    assert_eq!(body, "the body");
}

#[test]
fn four_dashes_count_as_one_delimiter() {
    let r = parse_front_matter("----");
    assert_eq!(r.err(), Some(FrontMatterError::MissingDelimiters));
}

#[test]
fn bad_yaml_is_rejected() {
    let r = parse_front_matter("---\ntitle: [\n---\nbody");
    assert_eq!(r.err(), Some(FrontMatterError::BadMetadataBlock));
}

#[test]
fn missing_field_is_rejected() {
    let r = parse_front_matter("---\ntitle: T\ndate: D\n---\nbody");
    assert_eq!(r.err(), Some(FrontMatterError::MissingField));
}

#[test]
fn extra_metadata_keys_are_tolerated() {
    let text = "---\ntitle: T\ndate: D\ntagline: G\nauthor: A\n---\nbody";
    let (meta, _) = parse_front_matter(text).expect("extra keys are ignored");
    assert_eq!(meta.title, "T");
}

#[test]
fn replace_all_rewrites_every_occurrence() {
    let r = replace_all_str("say .md\" twice .md\"", ".md\"", ".html\"");
    assert_eq!(r, "say .html\" twice .html\"");
}

#[test]
fn replace_all_scans_left_to_right() {
    assert_eq!(replace_all_str("aaa", "aa", "b"), "ba");
}

#[test]
fn quote_escaping_round_trips() {
    let original = "size = \"big\"";
    let escaped = escape_attribute(original);
    assert_eq!(escaped, "size = &quot;big&quot;");
    let decoded = replace_all_str(&escaped, "&quot;", "\"");
    assert_eq!(decoded, original);
}

#[test]
fn markdown_extension_is_exact() {
    assert!(is_markdown("post.md"));
    assert!(is_markdown("a.b.md"));
    assert!(!is_markdown("post.txt"));
    assert!(!is_markdown("md"));
    assert!(!is_markdown(".md"));
    assert!(!is_markdown("post.mdx"));
}

#[test]
fn stems_drop_the_last_extension() {
    assert_eq!(file_stem("post.md"), "post");
    assert_eq!(file_stem("archive.tar.gz"), "archive.tar");
    assert_eq!(file_stem("plain"), "plain");
    assert_eq!(file_stem(".hidden"), ".hidden");
}

#[test]
fn config_path_swaps_directory_and_extension() {
    let p = gallery_config_path("static/mandelbrot-gallery", "zoom-4.png");
    assert_eq!(p, "static/mandelbrot-gallery/configs/zoom-4.toml");
}

#[test]
fn string_order_is_lexicographic() {
    assert!(str_le("a.png", "b.png"));
    assert!(!str_le("b.png", "a.png"));
    assert!(str_le("a", "a.png"));
    assert!(str_le("same", "same"));
}

#[test]
fn page_shell_carries_title_body_and_script() {
    let page = render_page("My Title", "<p>hello</p>");
    assert!(page.contains("<title>My Title</title>"));
    assert!(page.contains("<main><p>hello</p></main>"));
    assert!(page.contains("function copyToml(img)"));
    assert!(page.contains("<a href=\"#top\" class=\"back-to-top\">Back to Top</a>"));
    assert!(page.starts_with("\n        <!DOCTYPE html>"));
    assert!(page.ends_with("</html>"));
}

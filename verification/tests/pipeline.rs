//! End-to-end tests of the build plan: the gallery page, the article
//! pass with the real Markdown renderer, and the article index.

use sitegen::driver::plan_build;
use sitegen::driver::BuildError;
use sitegen::front_matter::FrontMatterError;
use sitegen::gallery::generate_gallery;
use sitegen::gallery::GalleryError;
use sitegen::gallery::GalleryImage;
use sitegen::driver::SourceFile;
use sitegen::markdown::render_article_body;

fn image(name: &str, config: Option<&str>) -> GalleryImage {
    GalleryImage { name: name.to_string(), config: config.map(|c| c.to_string()) }
}

fn article(name: &str, text: &str) -> SourceFile {
    SourceFile { name: name.to_string(), text: Some(text.to_string()) }
}

const ROOT: &str = "static/mandelbrot-gallery";

#[test]
fn well_formed_article_renders_page_and_index() {
    let files = vec![article("post.md", "---\ntitle: T\ndate: D\ntagline: G\n---\n# Hi")];
    let pages = plan_build(ROOT, Some(vec![]), files).expect("build succeeds");
    assert_eq!(pages.len(), 3);
    assert_eq!(pages[0].path, "public/index.html");
    assert_eq!(pages[1].path, "public/post.html");
    assert_eq!(pages[2].path, "public/articles.html");
    assert!(pages[1].html.contains("<h1>Hi</h1>"));
    assert!(pages[1].html.contains("<title>T</title>"));
    let index = &pages[2].html;
    assert!(index.contains("<a href=\"post.html\">T</a>"));
    assert!(index.contains("<span class=\"article-date\">D</span>"));
    assert!(index.contains("<p>G</p>"));
}

#[test]
fn non_markdown_entries_are_ignored() {
    let files = vec![
        SourceFile { name: "notes.txt".to_string(), text: None },
        article("post.md", "---\ntitle: T\ndate: D\ntagline: G\n---\nbody"),
    ];
    let pages = plan_build(ROOT, Some(vec![]), files).expect("build succeeds");
    assert_eq!(pages.len(), 3);
    assert_eq!(pages[1].path, "public/post.html");
}

#[test]
fn unreadable_markdown_fails_the_build() {
    let files = vec![SourceFile { name: "post.md".to_string(), text: None }];
    let r = plan_build(ROOT, Some(vec![]), files);
    assert_eq!(r.err(), Some(BuildError::UnreadableArticle));
}

#[test]
fn malformed_front_matter_fails_the_build() {
    let files = vec![article("post.md", "no front matter")];
    let r = plan_build(ROOT, Some(vec![]), files);
    assert_eq!(
        r.err(),
        Some(BuildError::FrontMatter(FrontMatterError::MissingDelimiters))
    );
}

#[test]
fn gallery_lists_images_in_name_order() {
    let listing = vec![image("b.png", Some("two")), image("a.png", Some("one"))];
    let html = generate_gallery(ROOT, Some(listing)).expect("gallery renders");
    let a = html.find("a.png").expect("a.png listed");
    let b = html.find("b.png").expect("b.png listed");
    assert!(a < b);
}

#[test]
fn missing_gallery_config_fails_build() {
    let listing = vec![image("a.png", Some("one")), image("b.png", None)];
    let r = generate_gallery(ROOT, Some(listing));
    assert_eq!(r.err(), Some(GalleryError::MissingConfig));
    let full = plan_build(ROOT, Some(vec![image("b.png", None)]), vec![]);
    assert_eq!(full.err(), Some(BuildError::MissingGalleryConfig));
}

#[test]
fn missing_frames_directory_yields_empty_gallery() {
    let html = generate_gallery(ROOT, None).expect("absence is tolerated");
    assert!(html.contains("Mandelbrot Set Gallery"));
    assert!(html.contains("gallery-grid"));
    assert!(!html.contains("<img"));
    let pages = plan_build(ROOT, None, vec![]).expect("build still succeeds");
    assert_eq!(pages.len(), 2);
    assert!(!pages[0].html.contains("<img"));
}

#[test]
fn gallery_entry_carries_escaped_config() {
    let listing = vec![image("zoom.png", Some("title = \"deep\""))];
    let html = generate_gallery(ROOT, Some(listing)).expect("gallery renders");
    assert!(html.contains("data-toml=\"title = &quot;deep&quot;\""));
    assert!(html.contains("src=\"static/mandelbrot-gallery/frames/zoom.png\""));
    assert!(html.contains("onclick=\"copyToml(this)\""));
    assert!(html.contains("loading=\"lazy\""));
}

#[test]
fn md_links_become_html_links() {
    let body = render_article_body("See [the other post](other.md) for more.");
    assert!(body.contains("href=\"other.html\""));
    assert!(!body.contains(".md\""));
}

#[test]
fn md_rewrite_is_blunt_textual_substitution() {
    // An image source is not a page link, yet it is rewritten too.
    let body = render_article_body("![diagram](diagram.md)");
    assert!(body.contains("src=\"diagram.html\""));
    assert!(!body.contains("diagram.md\""));
    // The same bluntness at the text level, inside a code fragment.
    let direct = sitegen::text::replace_all_str(
        "<code>\"a.md\"</code>",
        ".md\"",
        ".html\"",
    );
    assert_eq!(direct, "<code>\"a.html\"</code>");
}

#[test]
fn footnotes_are_rendered() {
    let body = render_article_body("Text with a note.[^1]\n\n[^1]: The note.");
    assert!(body.contains("footnote"));
}

#[test]
fn fenced_code_is_highlighted() {
    let body = render_article_body("```rust\nlet x = 1;\n```");
    assert!(body.contains("<pre"));
    assert!(body.contains("style"));
}

#[test]
fn rebuild_is_identical() {
    let make_inputs = || {
        (
            Some(vec![image("b.png", Some("two")), image("a.png", Some("one"))]),
            vec![article(
                "post.md",
                "---\ntitle: T\ndate: D\ntagline: G\n---\nBody with [link](x.md).",
            )],
        )
    };
    let (g1, f1) = make_inputs();
    let (g2, f2) = make_inputs();
    let first = plan_build(ROOT, g1, f1).expect("first build");
    let second = plan_build(ROOT, g2, f2).expect("second build");
    assert_eq!(first.len(), second.len());
    for (a, b) in first.iter().zip(second.iter()) {
        assert_eq!(a.path, b.path);
        assert_eq!(a.html, b.html);
    }
}

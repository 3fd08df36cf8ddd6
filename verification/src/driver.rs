//! The build driver: from a gallery listing and the content directory's
//! files to the full set of pages — the home page with the gallery, one
//! page per Markdown article, and the article index.
//!
//! Every page is a function of the inputs alone, so a build plan computed
//! twice from the same inputs is the same, byte for byte.

use crate::front_matter::parse_front_matter;
use crate::front_matter::parse_front_matter_spec;
use crate::front_matter::FrontMatterError;
use crate::front_matter::MetadataModel;
use crate::gallery::generate_gallery;
use crate::gallery::generate_gallery_spec;
use crate::gallery::listing_model;
use crate::gallery::GalleryImage;
use crate::gallery::GalleryImageModel;
use crate::markdown::render_article_body;
use crate::markdown::rendered_body;
use crate::page::page_html;
use crate::page::render_page;
use crate::text::file_stem;
use crate::text::is_markdown;
use crate::text::spec_is_markdown;
use crate::text::stem_of;
use vstd::prelude::*;
use vstd::string::StringExecFns;

verus! {

/// A file of the content directory: its name, and its text when the file
/// was read (non-Markdown entries are never read).
pub struct SourceFile {
    pub name: String,
    pub text: Option<String>,
}

/// The mathematical content of a [`SourceFile`].
pub ghost struct SourceFileModel {
    pub name: Seq<char>,
    pub text: Option<Seq<char>>,
}

impl View for SourceFile {
    type V = SourceFileModel;

    open spec fn view(&self) -> SourceFileModel {
        SourceFileModel {
            name: self.name@,
            text: match self.text {
                Some(t) => Some(t@),
                None => None,
            },
        }
    }
}

impl DeepView for SourceFile {
    type V = SourceFileModel;

    open spec fn deep_view(&self) -> SourceFileModel {
        self@
    }
}

/// A page to be written: where, and what.
pub struct OutputPage {
    pub path: String,
    pub html: String,
}

/// The mathematical content of an [`OutputPage`].
pub ghost struct OutputPageModel {
    pub path: Seq<char>,
    pub html: Seq<char>,
}

impl View for OutputPage {
    type V = OutputPageModel;

    open spec fn view(&self) -> OutputPageModel {
        OutputPageModel { path: self.path@, html: self.html@ }
    }
}

impl DeepView for OutputPage {
    type V = OutputPageModel;

    open spec fn deep_view(&self) -> OutputPageModel {
        self@
    }
}

/// Why a build could produce no plan.
#[derive(Clone, Copy, Debug, PartialEq, Eq, Structural)]
pub enum BuildError {
    /// A gallery image's configuration file could not be read.
    MissingGalleryConfig,
    /// A Markdown content file could not be read.
    UnreadableArticle,
    /// A content file's front matter was rejected.
    FrontMatter(FrontMatterError),
}

/// An index item up to the link target.
pub const ITEM_OPEN: &'static str =
    "<div class=\"article-item\">\n                    <div class=\"article-header\">\n                        <h2><a href=\"";

/// Between the link target's stem and the visible title.
pub const ITEM_TITLE: &'static str = ".html\">";

/// Between the title and the display date.
pub const ITEM_DATE: &'static str =
    "</a></h2>\n                        <span class=\"article-date\">";

/// Between the date and the tagline.
pub const ITEM_TAGLINE: &'static str =
    "</span>\n                    </div>\n                    <div class=\"article-excerpt\">\n                        <p>";

/// After the tagline.
pub const ITEM_CLOSE: &'static str =
    "</p>\n                    </div>\n                </div>";

/// One article's entry of the index fragment: a link to its page under
/// its title, its display date, and its tagline.
pub open spec fn index_item(stem: Seq<char>, m: MetadataModel) -> Seq<char> {
    ITEM_OPEN@ + stem + ITEM_TITLE@ + m.title + ITEM_DATE@ + m.date + ITEM_TAGLINE@
        + m.tagline + ITEM_CLOSE@
}

/// Where an article's page is written.
pub open spec fn article_path(stem: Seq<char>) -> Seq<char> {
    "public/"@ + stem + ".html"@
}

/// What one content file contributes: nothing for a non-Markdown entry;
/// a page and an index item for a well-formed article; an error for an
/// unreadable or malformed one.
pub open spec fn article_outcome(f: SourceFileModel) -> Result<
    Option<(OutputPageModel, Seq<char>)>,
    BuildError,
> {
    if !spec_is_markdown(f.name) {
        Ok(None)
    } else {
        match f.text {
            None => Err(BuildError::UnreadableArticle),
            Some(t) => match parse_front_matter_spec(t) {
                Err(e) => Err(BuildError::FrontMatter(e)),
                Ok((m, body)) => Ok(
                    Some(
                        (
                            OutputPageModel {
                                path: article_path(stem_of(f.name)),
                                html: page_html(m.title, rendered_body(body)),
                            },
                            index_item(stem_of(f.name), m),
                        ),
                    ),
                ),
            },
        }
    }
}

/// The article pass over the content files in listing order: the pages,
/// and the accumulated index fragment — or the first file's error.
pub open spec fn articles_outcome(files: Seq<SourceFileModel>) -> Result<
    (Seq<OutputPageModel>, Seq<char>),
    BuildError,
>
    decreases files.len(),
{
    if files.len() == 0 {
        Ok((Seq::empty(), Seq::empty()))
    } else {
        match articles_outcome(files.drop_last()) {
            Err(e) => Err(e),
            Ok((pages, frag)) => match article_outcome(files.last()) {
                Err(e) => Err(e),
                Ok(None) => Ok((pages, frag)),
                Ok(Some((p, item))) => Ok((pages.push(p), frag + item)),
            },
        }
    }
}

/// A failing prefix decides the whole pass.
proof fn lemma_articles_error_persists(files: Seq<SourceFileModel>, j: int)
    requires
        0 <= j <= files.len(),
        articles_outcome(files.take(j)) is Err,
    ensures
        articles_outcome(files) == articles_outcome(files.take(j)),
    decreases files.len() - j,
{
    if j < files.len() {
        assert(files.take(j + 1).drop_last() =~= files.take(j));
        lemma_articles_error_persists(files, j + 1);
    } else {
        assert(files.take(j) =~= files);
    }
}

/// The home page's title.
pub const HOME_TITLE: &'static str = "Nic Ball";

/// The article index's title.
pub const INDEX_TITLE: &'static str = "Articles";

/// The full build plan: the home page wrapping the gallery, one page per
/// Markdown article in listing order, and the article index — or the
/// error that stops the build.
pub open spec fn plan_build_spec(
    root: Seq<char>,
    listing: Option<Seq<GalleryImageModel>>,
    files: Seq<SourceFileModel>,
) -> Result<Seq<OutputPageModel>, BuildError> {
    match generate_gallery_spec(root, listing) {
        None => Err(BuildError::MissingGalleryConfig),
        Some(g) => match articles_outcome(files) {
            Err(e) => Err(e),
            Ok((pages, frag)) => Ok(
                seq![
                    OutputPageModel {
                        path: "public/index.html"@,
                        html: page_html(HOME_TITLE@, g),
                    },
                ] + pages + seq![
                    OutputPageModel {
                        path: "public/articles.html"@,
                        html: page_html(INDEX_TITLE@, frag),
                    },
                ],
            ),
        },
    }
}

/// Re-running the build on unchanged inputs plans identical output: the
/// plan — every page path and every byte of every page — is a function
/// of the gallery root, the gallery listing and the content files alone,
/// so any two results of planning the same inputs are equal.
pub proof fn lemma_build_deterministic(
    root: Seq<char>,
    listing: Option<Seq<GalleryImageModel>>,
    files: Seq<SourceFileModel>,
    first: Result<Seq<OutputPageModel>, BuildError>,
    second: Result<Seq<OutputPageModel>, BuildError>,
)
    requires
        first == plan_build_spec(root, listing, files),
        second == plan_build_spec(root, listing, files),
    ensures
        first == second,
{
}

/// Computes the build plan, exactly as [`plan_build_spec`] describes it:
/// which pages exist and what each holds is pinned by the inputs, so two
/// runs over unchanged inputs plan identical output.
pub fn plan_build(
    gallery_root: &str,
    gallery_listing: Option<Vec<GalleryImage>>,
    content_files: Vec<SourceFile>,
) -> (r: Result<Vec<OutputPage>, BuildError>)
    ensures
        match r {
            Ok(pages) => plan_build_spec(
                gallery_root@,
                listing_model(gallery_listing),
                content_files.deep_view(),
            ) == Ok::<_, BuildError>(pages.deep_view()),
            Err(e) => plan_build_spec(
                gallery_root@,
                listing_model(gallery_listing),
                content_files.deep_view(),
            ) == Err::<Seq<OutputPageModel>, _>(e),
        },
{
    let ghost files = content_files.deep_view();
    let gallery = match generate_gallery(gallery_root, gallery_listing) {
        Ok(g) => g,
        Err(_) => {
            return Err(BuildError::MissingGalleryConfig);
        },
    };
    let mut pages: Vec<OutputPage> = Vec::new();
    let home = render_page(HOME_TITLE, gallery.as_str());
    pages.push(OutputPage { path: "public/index.html".to_owned(), html: home });
    let mut frag = String::new();
    let n = content_files.len();
    let mut i: usize = 0;
    proof {
        assert(files.take(0) =~= Seq::<SourceFileModel>::empty());
        assert(pages.deep_view().skip(1) =~= Seq::<OutputPageModel>::empty());
    }
    while i < n
        invariant
            n == content_files.len(),
            files == content_files.deep_view(),
            files.len() == n,
            i <= n,
            generate_gallery_spec(gallery_root@, listing_model(gallery_listing)) == Some(
                gallery@,
            ),
            pages.deep_view().len() >= 1,
            pages.deep_view()[0] == (OutputPageModel {
                path: "public/index.html"@,
                html: page_html(HOME_TITLE@, gallery@),
            }),
            articles_outcome(files.take(i as int)) == Ok::<_, BuildError>(
                (pages.deep_view().skip(1), frag@),
            ),
        decreases n - i,
    {
        let f = &content_files[i];
        proof {
            assert(f@ == files[i as int]);
            assert(files.take(i + 1).drop_last() =~= files.take(i as int));
            assert(files.take(i + 1).last() == files[i as int]);
        }
        if is_markdown(f.name.as_str()) {
            match &f.text {
                None => {
                    proof {
                        assert(articles_outcome(files.take(i + 1)) == Err::<
                            (Seq<OutputPageModel>, Seq<char>),
                            _,
                        >(BuildError::UnreadableArticle));
                        lemma_articles_error_persists(files, i + 1);
                    }
                    return Err(BuildError::UnreadableArticle);
                },
                Some(t) => {
                    match parse_front_matter(t.as_str()) {
                        Err(e) => {
                            proof {
                                assert(articles_outcome(files.take(i + 1)) == Err::<
                                    (Seq<OutputPageModel>, Seq<char>),
                                    _,
                                >(BuildError::FrontMatter(e)));
                                lemma_articles_error_persists(files, i + 1);
                            }
                            return Err(BuildError::FrontMatter(e));
                        },
                        Ok((meta, body)) => {
                            let body_html = render_article_body(body.as_str());
                            let stem = file_stem(f.name.as_str());
                            let page = render_page(meta.title.as_str(), body_html.as_str());
                            let mut path = String::new();
                            path.append("public/");
                            path.append(stem.as_str());
                            path.append(".html");
                            proof {
                                assert(path@ =~= article_path(stem_of(files[i as int].name)));
                            }
                            let ghost old_pages = pages.deep_view();
                            let ghost old_frag = frag@;
                            pages.push(OutputPage { path, html: page });
                            frag.append(ITEM_OPEN);
                            frag.append(stem.as_str());
                            frag.append(ITEM_TITLE);
                            frag.append(meta.title.as_str());
                            frag.append(ITEM_DATE);
                            frag.append(meta.date.as_str());
                            frag.append(ITEM_TAGLINE);
                            frag.append(meta.tagline.as_str());
                            frag.append(ITEM_CLOSE);
                            proof {
                                assert(pages.deep_view() =~= old_pages.push(
                                    OutputPageModel {
                                        path: article_path(stem_of(files[i as int].name)),
                                        html: page_html(meta@.title, rendered_body(body@)),
                                    },
                                ));
                                assert(pages.deep_view().skip(1) =~= old_pages.skip(1).push(
                                    OutputPageModel {
                                        path: article_path(stem_of(files[i as int].name)),
                                        html: page_html(meta@.title, rendered_body(body@)),
                                    },
                                ));
                                assert(frag@ =~= old_frag + index_item(
                                    stem_of(files[i as int].name),
                                    meta@,
                                ));
                            }
                        },
                    }
                },
            }
        } else {
            proof {
                assert(articles_outcome(files.take(i + 1)) == articles_outcome(
                    files.take(i as int),
                ));
            }
        }
        i += 1;
    }
    let index = render_page(INDEX_TITLE, frag.as_str());
    let ghost pre_pages = pages.deep_view();
    pages.push(OutputPage { path: "public/articles.html".to_owned(), html: index });
    proof {
        assert(files.take(n as int) =~= files);
        let idx = OutputPageModel {
            path: "public/index.html"@,
            html: page_html(HOME_TITLE@, gallery@),
        };
        let art = OutputPageModel {
            path: "public/articles.html"@,
            html: page_html(INDEX_TITLE@, frag@),
        };
        assert(pages.deep_view() =~= pre_pages.push(art));
        assert(pages.deep_view() =~= seq![idx] + pre_pages.skip(1) + seq![art]);
    }
    Ok(pages)
}

} // verus!

//! The page shell: every rendered page is the same fixed HTML skeleton —
//! head, navigation, footer and clipboard-copy script — wrapped around a
//! title and a body fragment.

use vstd::prelude::*;
use vstd::string::StringExecFns;

verus! {

/// The shell up to and including the opening `<title>` tag.
pub const PAGE_TOP: &'static str = r##"
        <!DOCTYPE html>
        <html lang="en">
        <head>
            <meta charset="UTF-8">
            <meta name="color-scheme" content="dark">
            <title>"##;

/// The shell between the title and the main content.
pub const PAGE_MIDDLE: &'static str = r##"</title>
            <link rel="stylesheet" href="style.css">
            </head>
        <body>
            <header>
                <nav>
                    <div class="nav-name">
                        <h3>Nic Ball</h3>
                    </div>
                    <div class="nav-links">
                        <a href="index.html">Home</a>
                        <a href="articles.html">Articles</a>
                    </div>
                    <div class="nav-github">
                        <a href="https://github.com/void-scape" class="github-link" target="_blank">
                            <svg xmlns="http://www.w3.org/2000/svg" width="20" height="20" viewBox="0 0 24 24" fill="none" stroke="currentColor" stroke-width="2" stroke-linecap="round" stroke-linejoin="round">
                                <path d="M15 22v-4a4.8 4.8 0 0 0-1-3.5c3 0 6-2 6-5.5.08-1.25-.27-2.48-1-3.5.28-1.15.28-2.35 0-3.5 0 0-1 0-3 1.5-2.64-.5-5.36-.5-8 0C6 2 5 2 5 2c-.28 1.15-.28 2.35 0 3.5-.73 1.02-1.08 2.25-1 3.5 0 3.5 3 5.5 6 5.5-.39.49-.68 1.05-.85 1.65-.17.6-.22 1.23-.15 1.85v4"/>
                                <path d="M9 18c-4.51 2-5-2-7-2"/>
                            </svg>
                        </a>
                    </div>
                </nav>
            </header>
            <main>"##;

/// The shell after the main content: footer, back-to-top anchor and the
/// clipboard-copy script with its toast acknowledgment.
pub const PAGE_BOTTOM: &'static str = r##"</main>
            <footer>
                <div class="footer-content">
                    <p>&copy; Nic Ball 2026</p>
                    <a href="#top" class="back-to-top">Back to Top</a>
                </div>
            </footer>

            <script>
                function copyToml(img) {
                    const toml = img.getAttribute('data-toml');
                    navigator.clipboard.writeText(toml).then(() => {
                        const toast = document.getElementById('toast');
                        toast.classList.add('show');
                        setTimeout(() => {
                            toast.classList.remove('show');
                        }, 3000);
                    }).catch(err => {
                        console.error('Failed to copy text: ', err);
                    });
                }
            </script>
        </body>
        </html>"##;

/// A complete page: the fixed shell around a title and a body fragment.
pub open spec fn page_html(title: Seq<char>, content: Seq<char>) -> Seq<char> {
    PAGE_TOP@ + title + PAGE_MIDDLE@ + content + PAGE_BOTTOM@
}

/// Wraps a body fragment and a title in the fixed page shell, exactly as
/// [`page_html`] describes it.
pub fn render_page(title: &str, content: &str) -> (r: String)
    ensures
        r@ == page_html(title@, content@),
{
    let mut out = String::new();
    out.append(PAGE_TOP);
    out.append(title);
    out.append(PAGE_MIDDLE);
    out.append(content);
    out.append(PAGE_BOTTOM);
    proof {
        assert(out@ =~= page_html(title@, content@));
    }
    out
}

} // verus!

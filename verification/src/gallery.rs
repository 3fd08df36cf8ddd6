//! The gallery: image entries sorted by name, each carrying its
//! configuration text, quote-escaped, in a `data-toml` attribute.
//!
//! A missing listing (the `frames` directory could not be read) yields an
//! empty grid; a missing configuration file for a listed image fails the
//! build.  The asymmetry is deliberate and preserved.

use crate::text::file_stem;
use crate::text::lemma_lex_le_total;
use crate::text::lemma_lex_le_trans;
use crate::text::lex_le;
use crate::text::replace_all;
use crate::text::replace_all_str;
use crate::text::stem_of;
use crate::text::str_le;
use vstd::prelude::*;
use vstd::string::StringExecFns;

verus! {

/// A double quote, the one character escaped in attribute text.
pub open spec fn dquote() -> Seq<char> {
    seq!['"']
}

/// Its escaped form, `&quot;`.
pub open spec fn quot_entity() -> Seq<char> {
    seq!['&', 'q', 'u', 'o', 't', ';']
}

/// Text made safe for embedding in a double-quoted HTML attribute: every
/// `"` becomes `&quot;`.
pub open spec fn escape_attr(s: Seq<char>) -> Seq<char> {
    replace_all(s, dquote(), quot_entity())
}

/// What a standards-compliant attribute parser makes of escaped text:
/// every `&quot;` becomes `"` again.
pub open spec fn unescape_attr(s: Seq<char>) -> Seq<char> {
    replace_all(s, quot_entity(), dquote())
}

/// Escaping steps over one leading character: a quote becomes the
/// entity, anything else stays.
proof fn lemma_escape_step(s: Seq<char>)
    requires
        s.len() > 0,
    ensures
        s[0] == '"' ==> escape_attr(s) == quot_entity() + escape_attr(s.skip(1)),
        s[0] != '"' ==> escape_attr(s) == seq![s[0]] + escape_attr(s.skip(1)),
{
    if s[0] == '"' {
        assert(s.take(1) =~= dquote());
    } else {
        assert(s.take(1)[0] == s[0]);
        assert(s.take(1) != dquote());
        assert(s.take(1) =~= seq![s[0]]);
    }
}

/// Text holding a quote escapes to at least the entity's length.
proof fn lemma_escape_len_quote(s: Seq<char>)
    requires
        exists|i: int| 0 <= i < s.len() && s[i] == '"',
    ensures
        escape_attr(s).len() >= 6,
    decreases s.len(),
{
    let i = choose|i: int| 0 <= i < s.len() && s[i] == '"';
    lemma_escape_step(s);
    if s[0] != '"' {
        assert(s.skip(1)[i - 1] == '"');
        lemma_escape_len_quote(s.skip(1));
    }
}

/// Text without a quote escapes to itself.
proof fn lemma_escape_no_quote(s: Seq<char>)
    requires
        forall|i: int| 0 <= i < s.len() ==> s[i] != '"',
    ensures
        escape_attr(s) == s,
{
    assert forall|i: int| !crate::text::match_at(s, dquote(), i) by {
        if 0 <= i && i + 1 <= s.len() && crate::text::match_at(s, dquote(), i) {
            assert(s.subrange(i, i + 1)[0] == s[i]);
        }
    }
    crate::text::lemma_replace_all_no_match(s, dquote(), quot_entity());
}

/// Escaped text that does not open with an ampersand opens with the
/// original text's first character, itself left unchanged.
proof fn lemma_escape_head_plain(s: Seq<char>)
    requires
        escape_attr(s).len() > 0,
        escape_attr(s)[0] != '&',
    ensures
        s.len() > 0,
        s[0] == escape_attr(s)[0],
        s[0] != '"',
        escape_attr(s).skip(1) == escape_attr(s.skip(1)),
{
    if s.len() == 0 {
        assert(escape_attr(s) == s);
    }
    lemma_escape_step(s);
    if s[0] == '"' {
        assert((quot_entity() + escape_attr(s.skip(1)))[0] == '&');
    } else {
        assert((seq![s[0]] + escape_attr(s.skip(1)))[0] == s[0]);
        assert((seq![s[0]] + escape_attr(s.skip(1))).skip(1) =~= escape_attr(s.skip(1)));
    }
}

/// Quote escaping round-trips: configuration text with a quote is
/// embedded with the quote as `&quot;`, and decoding the attribute —
/// replacing each `&quot;` by `"` again, as a standards-compliant
/// attribute parser does — recovers the text exactly.  Text that already
/// holds the entity `&quot;` itself is left out: the entity decodes to a
/// quote, so such text cannot round-trip.
pub proof fn lemma_escape_attr_round_trip(s: Seq<char>)
    requires
        forall|i: int| !crate::text::match_at(s, quot_entity(), i),
    ensures
        unescape_attr(escape_attr(s)) == s,
    decreases s.len(),
{
    let q = dquote();
    let ent = quot_entity();
    if s.len() == 0 {
    } else {
        lemma_escape_step(s);
        let s1 = s.skip(1);
        assert forall|i: int| !crate::text::match_at(s1, ent, i) by {
            if i >= 0 {
                crate::text::lemma_match_at_skip(s, ent, 1, i);
            }
        }
        let e1 = escape_attr(s1);
        if s[0] == '"' {
            let t = ent + e1;
            assert(escape_attr(s) == t);
            assert(t.take(6) =~= ent);
            assert(t.skip(6) =~= e1);
            lemma_escape_attr_round_trip(s1);
            assert(unescape_attr(t) == q + s1);
            assert(q + s1 =~= s);
        } else {
            let c = s[0];
            let t = seq![c] + e1;
            assert(escape_attr(s) == t);
            assert(t.take(1) =~= seq![c]);
            assert(t.skip(1) =~= e1);
            if t.len() < 6 {
                assert forall|k: int| 0 <= k < s1.len() implies s1[k] != '"' by {
                    if s1[k] == '"' {
                        lemma_escape_len_quote(s1);
                    }
                }
                lemma_escape_no_quote(s1);
                assert(unescape_attr(t) == t);
                assert(seq![c] + s1 =~= s);
            } else {
                if t.take(6) == ent {
                    assert(t.take(6)[0] == c);
                    assert(c == '&');
                    assert forall|j: int| 0 <= j < 5 implies e1[j] == ent[j + 1] by {
                        assert(t.take(6)[j + 1] == e1[j]);
                    }
                    assert(e1[0] == 'q');
                    lemma_escape_head_plain(s1);
                    let s2 = s1.skip(1);
                    let e2 = escape_attr(s2);
                    assert(e2 == e1.skip(1));
                    assert(e2[0] == e1[1] && e2[0] == 'u');
                    lemma_escape_head_plain(s2);
                    let s3 = s2.skip(1);
                    let e3 = escape_attr(s3);
                    assert(e3 == e2.skip(1));
                    assert(e3[0] == e1[2] && e3[0] == 'o');
                    lemma_escape_head_plain(s3);
                    let s4 = s3.skip(1);
                    let e4 = escape_attr(s4);
                    assert(e4 == e3.skip(1));
                    assert(e4[0] == e1[3] && e4[0] == 't');
                    lemma_escape_head_plain(s4);
                    let s5 = s4.skip(1);
                    let e5 = escape_attr(s5);
                    assert(e5 == e4.skip(1));
                    assert(e5[0] == e1[4] && e5[0] == ';');
                    lemma_escape_head_plain(s5);
                    assert(s1[0] == 'q' && s2[0] == 'u' && s3[0] == 'o' && s4[0] == 't'
                        && s5[0] == ';');
                    assert(s.subrange(0, 6) =~= ent);
                    assert(crate::text::match_at(s, ent, 0));
                    assert(false);
                }
                assert(unescape_attr(t) == t.take(1) + unescape_attr(e1));
                lemma_escape_attr_round_trip(s1);
                assert(seq![c] + s1 =~= s);
            }
        }
    }
}

/// Escapes attribute text, as [`escape_attr`] describes it.
pub fn escape_attribute(s: &str) -> (r: String)
    ensures
        r@ == escape_attr(s@),
{
    let pat = "\"";
    let rep = "&quot;";
    proof {
        reveal_strlit("\"");
        reveal_strlit("&quot;");
        assert(pat@ =~= dquote());
        assert(rep@ =~= quot_entity());
    }
    replace_all_str(s, pat, rep)
}

/// An image of the gallery listing: its file name, and the text of its
/// companion configuration file when that file could be read.
pub struct GalleryImage {
    pub name: String,
    pub config: Option<String>,
}

/// The mathematical content of a [`GalleryImage`].
pub ghost struct GalleryImageModel {
    pub name: Seq<char>,
    pub config: Option<Seq<char>>,
}

impl View for GalleryImage {
    type V = GalleryImageModel;

    open spec fn view(&self) -> GalleryImageModel {
        GalleryImageModel {
            name: self.name@,
            config: match self.config {
                Some(c) => Some(c@),
                None => None,
            },
        }
    }
}

impl DeepView for GalleryImage {
    type V = GalleryImageModel;

    open spec fn deep_view(&self) -> GalleryImageModel {
        self@
    }
}

/// Where an image's configuration file lives: the `configs` directory
/// beside `frames`, the image's stem, and a `.toml` extension.
pub open spec fn config_path_spec(root: Seq<char>, name: Seq<char>) -> Seq<char> {
    root + "/configs/"@ + stem_of(name) + ".toml"@
}

/// The configuration path for an image of the gallery under `root`, as
/// [`config_path_spec`] describes it.
pub fn gallery_config_path(root: &str, name: &str) -> (r: String)
    ensures
        r@ == config_path_spec(root@, name@),
{
    let stem = file_stem(name);
    let mut out = String::new();
    out.append(root);
    out.append("/configs/");
    out.append(stem.as_str());
    out.append(".toml");
    proof {
        assert(out@ =~= config_path_spec(root@, name@));
    }
    out
}

/// `e` placed into the already-sorted `s`, before the first entry whose
/// name does not come before `e`'s.
pub open spec fn insert_image(e: GalleryImageModel, s: Seq<GalleryImageModel>) -> Seq<
    GalleryImageModel,
>
    decreases s.len(),
{
    if s.len() == 0 {
        seq![e]
    } else if lex_le(e.name, s[0].name) {
        seq![e] + s
    } else {
        seq![s[0]] + insert_image(e, s.skip(1))
    }
}

/// The listing sorted by image name, stably: insertion sort, earlier
/// entries inserted in front of later equal ones.
pub open spec fn sort_images(s: Seq<GalleryImageModel>) -> Seq<GalleryImageModel>
    decreases s.len(),
{
    if s.len() == 0 {
        Seq::empty()
    } else {
        insert_image(s[0], sort_images(s.skip(1)))
    }
}

/// Entries stand in lexicographic order of image name.
pub open spec fn images_ordered(s: Seq<GalleryImageModel>) -> bool {
    forall|i: int, j: int| 0 <= i < j < s.len() ==> lex_le(s[i].name, s[j].name)
}

/// Inserting into an ordered listing keeps it ordered.
proof fn lemma_insert_image_ordered(e: GalleryImageModel, s: Seq<GalleryImageModel>)
    requires
        images_ordered(s),
    ensures
        images_ordered(insert_image(e, s)),
        insert_image(e, s).len() == s.len() + 1,
    decreases s.len(),
{
    if s.len() == 0 {
    } else if lex_le(e.name, s[0].name) {
        let r = seq![e] + s;
        assert forall|i: int, j: int| 0 <= i < j < r.len() implies lex_le(
            r[i].name,
            r[j].name,
        ) by {
            if i == 0 {
                if j > 1 {
                    lemma_lex_le_trans(e.name, s[0].name, s[j - 1].name);
                }
            }
        }
    } else {
        assert(images_ordered(s.skip(1)));
        lemma_insert_image_ordered(e, s.skip(1));
        let t = insert_image(e, s.skip(1));
        let r = seq![s[0]] + t;
        lemma_lex_le_total(e.name, s[0].name);
        assert forall|i: int, j: int| 0 <= i < j < r.len() implies lex_le(
            r[i].name,
            r[j].name,
        ) by {
            if i == 0 {
                lemma_insert_image_member(e, s.skip(1), j - 1);
            }
        }
    }
}

/// Insertion grows the listing by one.
proof fn lemma_insert_image_len(e: GalleryImageModel, s: Seq<GalleryImageModel>)
    ensures
        insert_image(e, s).len() == s.len() + 1,
    decreases s.len(),
{
    if s.len() > 0 && !lex_le(e.name, s[0].name) {
        lemma_insert_image_len(e, s.skip(1));
    }
}

/// Every entry of an insertion's result is the inserted entry or one of
/// the old ones.
proof fn lemma_insert_image_member(e: GalleryImageModel, s: Seq<GalleryImageModel>, j: int)
    requires
        0 <= j < insert_image(e, s).len(),
    ensures
        insert_image(e, s).len() == s.len() + 1,
        insert_image(e, s)[j] == e || exists|k: int|
            0 <= k < s.len() && insert_image(e, s)[j] == s[k],
    decreases s.len(),
{
    lemma_insert_image_len(e, s);
    if s.len() == 0 {
        assert(insert_image(e, s) == seq![e]);
        assert(insert_image(e, s)[0] == e);
    } else if lex_le(e.name, s[0].name) {
        assert(insert_image(e, s) == seq![e] + s);
        if j == 0 {
            assert(insert_image(e, s)[0] == e);
        } else {
            assert(insert_image(e, s)[j] == s[j - 1]);
            assert(0 <= j - 1 < s.len() && insert_image(e, s)[j] == s[j - 1]);
        }
    } else {
        let t = insert_image(e, s.skip(1));
        assert(insert_image(e, s) == seq![s[0]] + t);
        if j == 0 {
            assert(0 <= 0 < s.len() && insert_image(e, s)[0] == s[0]);
        } else {
            lemma_insert_image_member(e, s.skip(1), j - 1);
            assert(insert_image(e, s)[j] == t[j - 1]);
            if t[j - 1] != e {
                let k = choose|k: int| 0 <= k < s.skip(1).len() && t[j - 1] == s.skip(1)[k];
                assert(s.skip(1)[k] == s[k + 1]);
                assert(0 <= k + 1 < s.len() && insert_image(e, s)[j] == s[k + 1]);
            }
        }
    }
}

/// The sorted listing is ordered by name.
pub proof fn lemma_sort_images_ordered(s: Seq<GalleryImageModel>)
    ensures
        images_ordered(sort_images(s)),
        sort_images(s).len() == s.len(),
    decreases s.len(),
{
    if s.len() > 0 {
        lemma_sort_images_ordered(s.skip(1));
        lemma_insert_image_ordered(s[0], sort_images(s.skip(1)));
    }
}

/// Insertion only repositions the entries.
proof fn lemma_insert_image_multiset(e: GalleryImageModel, s: Seq<GalleryImageModel>)
    ensures
        insert_image(e, s).to_multiset() =~= s.to_multiset().insert(e),
    decreases s.len(),
{
    broadcast use vstd::multiset::group_multiset_axioms;

    if s.len() == 0 || lex_le(e.name, s[0].name) {
        assert(insert_image(e, s) =~= s.insert(0, e));
        vstd::seq_lib::to_multiset_insert(s, 0, e);
    } else {
        lemma_insert_image_multiset(e, s.skip(1));
        let t = insert_image(e, s.skip(1));
        vstd::seq_lib::lemma_multiset_commutative(seq![s[0]], t);
        vstd::seq_lib::lemma_multiset_commutative(seq![s[0]], s.skip(1));
        assert(s =~= seq![s[0]] + s.skip(1));
        assert(insert_image(e, s).to_multiset() =~= seq![s[0]].to_multiset().add(
            t.to_multiset(),
        ));
        assert(t.to_multiset() =~= s.skip(1).to_multiset().insert(e));
        assert(s.to_multiset() =~= seq![s[0]].to_multiset().add(s.skip(1).to_multiset()));
        assert(insert_image(e, s).to_multiset() =~= s.to_multiset().insert(e));
    }
}

/// Sorting the listing only reorders it: the sorted listing holds
/// exactly the given entries, so with the name order proved of it, the
/// gallery shows every listed image once, in name order.
pub proof fn lemma_sort_images_permutes(s: Seq<GalleryImageModel>)
    ensures
        sort_images(s).to_multiset() =~= s.to_multiset(),
    decreases s.len(),
{
    broadcast use vstd::multiset::group_multiset_axioms;

    if s.len() > 0 {
        let t = sort_images(s.skip(1));
        lemma_sort_images_permutes(s.skip(1));
        lemma_insert_image_multiset(s[0], t);
        assert(sort_images(s).to_multiset() =~= t.to_multiset().insert(s[0]));
        assert(t.to_multiset().insert(s[0]) =~= s.skip(1).to_multiset().insert(s[0]));
        assert(s =~= s.skip(1).insert(0, s[0]));
        vstd::seq_lib::to_multiset_insert(s.skip(1), 0, s[0]);
        assert(s.to_multiset() =~= s.skip(1).to_multiset().insert(s[0]));
    } else {
        assert(s =~= Seq::<GalleryImageModel>::empty());
    }
}

/// Every entry carries configuration text.
pub open spec fn all_configured(s: Seq<GalleryImageModel>) -> bool {
    forall|k: int| 0 <= k < s.len() ==> s[k].config is Some
}

/// A non-empty listing is fully configured exactly when its first entry
/// and the rest are.
proof fn lemma_all_configured_cons(s: Seq<GalleryImageModel>)
    requires
        s.len() > 0,
    ensures
        all_configured(s) <==> (s[0].config is Some && all_configured(s.skip(1))),
{
    if all_configured(s) {
        assert forall|k: int| 0 <= k < s.skip(1).len() implies s.skip(1)[k].config
            is Some by {
            assert(s.skip(1)[k] == s[k + 1]);
        }
    }
    if s[0].config is Some && all_configured(s.skip(1)) {
        assert forall|k: int| 0 <= k < s.len() implies s[k].config is Some by {
            if k > 0 {
                assert(s[k] == s.skip(1)[k - 1]);
            }
        }
    }
}

/// Sorting neither loses nor invents missing configurations.
proof fn lemma_insert_image_configured(e: GalleryImageModel, s: Seq<GalleryImageModel>)
    ensures
        all_configured(insert_image(e, s)) <==> (e.config is Some && all_configured(s)),
    decreases s.len(),
{
    if s.len() == 0 {
        assert(insert_image(e, s)[0] == e);
    } else if lex_le(e.name, s[0].name) {
        let r = seq![e] + s;
        assert(r[0] == e);
        assert(forall|k: int| 0 <= k < s.len() ==> r[k + 1] == s[k]);
        if e.config is Some && all_configured(s) {
            assert forall|k: int| 0 <= k < r.len() implies r[k].config is Some by {
                if k > 0 {
                    assert(r[k] == s[k - 1]);
                }
            }
        }
    } else {
        lemma_insert_image_configured(e, s.skip(1));
        let t = insert_image(e, s.skip(1));
        let r = seq![s[0]] + t;
        assert(r[0] == s[0]);
        assert(forall|k: int| 0 <= k < t.len() ==> r[k + 1] == t[k]);
        assert(all_configured(r) <==> (s[0].config is Some && all_configured(t)));
        lemma_all_configured_cons(s);
    }
}

/// A listing has every configuration exactly when its sorted form does.
pub proof fn lemma_sort_images_configured(s: Seq<GalleryImageModel>)
    ensures
        all_configured(sort_images(s)) <==> all_configured(s),
    decreases s.len(),
{
    if s.len() > 0 {
        lemma_sort_images_configured(s.skip(1));
        lemma_insert_image_configured(s[0], sort_images(s.skip(1)));
        lemma_all_configured_cons(s);
    }
}

/// Inserting before the first entry that does not come before `e` is
/// what [`insert_image`] does.
proof fn lemma_insert_image_point(e: GalleryImageModel, s: Seq<GalleryImageModel>, j: int)
    requires
        0 <= j <= s.len(),
        forall|k: int| 0 <= k < j ==> !lex_le(e.name, s[k].name),
        j < s.len() ==> lex_le(e.name, s[j].name),
    ensures
        insert_image(e, s) == s.take(j) + seq![e] + s.skip(j),
    decreases s.len(),
{
    if s.len() == 0 {
        assert(s.take(0) + seq![e] + s.skip(0) =~= seq![e]);
    } else if j == 0 {
        assert(s.take(0) + seq![e] + s.skip(0) =~= seq![e] + s);
    } else {
        assert(!lex_le(e.name, s[0].name));
        assert forall|k: int| 0 <= k < j - 1 implies !lex_le(e.name, s.skip(1)[k].name) by {
            assert(s.skip(1)[k] == s[k + 1]);
        }
        assert(j - 1 < s.skip(1).len() ==> lex_le(e.name, s.skip(1)[j - 1].name));
        lemma_insert_image_point(e, s.skip(1), j - 1);
        assert(seq![s[0]] + (s.skip(1).take(j - 1) + seq![e] + s.skip(1).skip(j - 1)) =~= s.take(
            j,
        ) + seq![e] + s.skip(j));
    }
}

/// Places `e` into the sorted `list`, as [`insert_image`] describes it.
fn insert_sorted(e: GalleryImage, list: Vec<GalleryImage>) -> (r: Vec<GalleryImage>)
    ensures
        r.deep_view() == insert_image(e.deep_view(), list.deep_view()),
{
    let n = list.len();
    let ghost dv = list.deep_view();
    let mut j: usize = 0;
    while j < n && !str_le(e.name.as_str(), list[j].name.as_str())
        invariant
            n == list.len(),
            dv == list.deep_view(),
            j <= n,
            forall|k: int| 0 <= k < j ==> !lex_le(e@.name, dv[k].name),
        decreases n - j,
    {
        j += 1;
    }
    proof {
        lemma_insert_image_point(e@, dv, j as int);
    }
    let mut out = list;
    out.insert(j, e);
    proof {
        assert(out.deep_view() =~= dv.take(j as int) + seq![e@] + dv.skip(j as int));
    }
    out
}

/// Sorts a gallery listing by image name, as [`sort_images`] describes
/// it.
pub fn sort_gallery(images: Vec<GalleryImage>) -> (r: Vec<GalleryImage>)
    ensures
        r.deep_view() == sort_images(images.deep_view()),
{
    let ghost orig = images.deep_view();
    let mut work = images;
    let mut acc: Vec<GalleryImage> = Vec::new();
    proof {
        assert(work.deep_view() =~= orig.take(orig.len() as int));
        assert(orig.skip(orig.len() as int) =~= Seq::<GalleryImageModel>::empty());
        assert(acc.deep_view() =~= Seq::<GalleryImageModel>::empty());
    }
    while work.len() > 0
        invariant
            work.len() <= orig.len(),
            work.deep_view() == orig.take(work.len() as int),
            acc.deep_view() == sort_images(orig.skip(work.len() as int)),
        decreases work.len(),
    {
        let ghost k = work.len() as int;
        let e = work.pop().unwrap();
        proof {
            assert(e@ == orig.take(k)[k - 1]);
            assert(work.deep_view() =~= orig.take(k - 1));
            let rest = orig.skip(k - 1);
            assert(rest[0] == orig[k - 1]);
            assert(rest.skip(1) =~= orig.skip(k));
        }
        acc = insert_sorted(e, acc);
    }
    proof {
        assert(orig.skip(0) =~= orig);
    }
    acc
}

/// The gallery heading and the opening of the grid.
pub const GALLERY_HEAD: &'static str =
    "<h3 class=\"gallery-title\">Mandelbrot Set Gallery</h2><div class=\"gallery-grid\">";

/// An entry up to its image source path.
pub const IMG_OPEN: &'static str = "<img \n                    src=\"";

/// An entry between its source path and its configuration text.
pub const IMG_MIDDLE: &'static str =
    "\" \n                    class=\"gallery-item loading\" \n                    data-toml=\"";

/// An entry after its configuration text: the click-to-copy handler, the
/// loading-class removal, the lazy-loading hint and the alt text.
pub const IMG_CLOSE: &'static str =
    "\" \n                    onclick=\"copyToml(this)\" \n                    onload=\"this.classList.remove('loading')\"\n                    loading=\"lazy\"\n                    alt=\"Mandelbrot Fractal\">";

/// An entry's configuration text; empty only where none exists, a case
/// the gallery rejects before rendering.
pub open spec fn config_text(e: GalleryImageModel) -> Seq<char> {
    match e.config {
        Some(c) => c,
        None => Seq::empty(),
    }
}

/// One `<img>` element: source path under `root/frames`, the loading
/// class, the escaped configuration text, the copy handler and the
/// lazy-loading hint.
pub open spec fn entry_html(root: Seq<char>, name: Seq<char>, config: Seq<char>) -> Seq<
    char,
> {
    IMG_OPEN@ + root + "/frames/"@ + name + IMG_MIDDLE@ + escape_attr(config) + IMG_CLOSE@
}

/// The entries' elements, in listing order.
pub open spec fn entries_text(root: Seq<char>, imgs: Seq<GalleryImageModel>) -> Seq<char>
    decreases imgs.len(),
{
    if imgs.len() == 0 {
        Seq::empty()
    } else {
        entry_html(root, imgs[0].name, config_text(imgs[0])) + entries_text(
            root,
            imgs.skip(1),
        )
    }
}

/// Appending an entry to the listing appends its element to the text.
proof fn lemma_entries_text_snoc(
    root: Seq<char>,
    s: Seq<GalleryImageModel>,
    e: GalleryImageModel,
)
    ensures
        entries_text(root, s.push(e)) == entries_text(root, s) + entry_html(
            root,
            e.name,
            config_text(e),
        ),
    decreases s.len(),
{
    let ee = entry_html(root, e.name, config_text(e));
    if s.len() == 0 {
        assert(s.push(e)[0] == e);
        assert(s.push(e).skip(1) =~= Seq::<GalleryImageModel>::empty());
        assert(entries_text(root, s.push(e)) == ee + entries_text(
            root,
            Seq::<GalleryImageModel>::empty(),
        ));
        assert(ee + Seq::<char>::empty() =~= Seq::<char>::empty() + ee);
    } else {
        let head = entry_html(root, s[0].name, config_text(s[0]));
        assert(s.push(e)[0] == s[0]);
        assert(s.push(e).skip(1) =~= s.skip(1).push(e));
        assert(entries_text(root, s.push(e)) == head + entries_text(
            root,
            s.skip(1).push(e),
        ));
        lemma_entries_text_snoc(root, s.skip(1), e);
        assert(head + (entries_text(root, s.skip(1)) + ee) =~= (head + entries_text(
            root,
            s.skip(1),
        )) + ee);
    }
}

/// The whole gallery view of a possibly unreadable listing.
pub open spec fn listing_model(listing: Option<Vec<GalleryImage>>) -> Option<
    Seq<GalleryImageModel>,
> {
    match listing {
        None => None,
        Some(v) => Some(v.deep_view()),
    }
}

/// Why a gallery could not be rendered.
#[derive(Clone, Copy, Debug, PartialEq, Eq, Structural)]
pub enum GalleryError {
    /// A listed image's configuration file could not be read.
    MissingConfig,
}

/// The gallery fragment: heading and grid, then one element per image in
/// name order.  An unreadable listing yields the empty grid; a listed
/// image without configuration text yields nothing.
pub open spec fn generate_gallery_spec(
    root: Seq<char>,
    listing: Option<Seq<GalleryImageModel>>,
) -> Option<Seq<char>> {
    match listing {
        None => Some(GALLERY_HEAD@),
        Some(imgs) => if all_configured(imgs) {
            Some(GALLERY_HEAD@ + entries_text(root, sort_images(imgs)))
        } else {
            None
        },
    }
}

/// Renders the gallery fragment, exactly as [`generate_gallery_spec`]
/// describes it.  An unreadable `frames` listing is tolerated and yields
/// a gallery with zero entries; a listed image whose configuration is
/// missing fails, if and only if.
pub fn generate_gallery(root: &str, listing: Option<Vec<GalleryImage>>) -> (r: Result<
    String,
    GalleryError,
>)
    ensures
        match r {
            Ok(html) => generate_gallery_spec(root@, listing_model(listing)) == Some(html@),
            Err(_) => generate_gallery_spec(root@, listing_model(listing)) is None,
        },
        listing is None ==> r is Ok,
        (r is Err) <==> (listing matches Some(v) && !all_configured(v.deep_view())),
{
    match listing {
        None => {
            let mut out = String::new();
            out.append(GALLERY_HEAD);
            proof {
                assert(out@ =~= GALLERY_HEAD@);
            }
            Ok(out)
        },
        Some(images) => {
            let ghost imgs = images.deep_view();
            let sorted = sort_gallery(images);
            let ghost sdv = sorted.deep_view();
            proof {
                lemma_sort_images_configured(imgs);
                lemma_sort_images_ordered(imgs);
            }
            let n = sorted.len();
            let mut out = String::new();
            out.append(GALLERY_HEAD);
            let mut i: usize = 0;
            proof {
                assert(sdv.take(0) =~= Seq::<GalleryImageModel>::empty());
                assert(out@ =~= GALLERY_HEAD@ + entries_text(root@, sdv.take(0)));
            }
            while i < n
                invariant
                    n == sorted.len(),
                    sdv == sorted.deep_view(),
                    sdv == sort_images(imgs),
                    sdv.len() == n,
                    i <= n,
                    forall|k: int| 0 <= k < i ==> sdv[k].config is Some,
                    listing_model(listing) == Some(imgs),
                    out@ == GALLERY_HEAD@ + entries_text(root@, sdv.take(i as int)),
                decreases n - i,
            {
                match &sorted[i].config {
                    None => {
                        proof {
                            assert(sdv[i as int].config is None);
                            assert(!all_configured(sdv));
                            lemma_sort_images_configured(imgs);
                        }
                        return Err(GalleryError::MissingConfig);
                    },
                    Some(cfg) => {
                        out.append(IMG_OPEN);
                        out.append(root);
                        out.append("/frames/");
                        out.append(sorted[i].name.as_str());
                        out.append(IMG_MIDDLE);
                        let esc = escape_attribute(cfg.as_str());
                        out.append(esc.as_str());
                        out.append(IMG_CLOSE);
                        proof {
                            assert(sdv.take(i + 1) =~= sdv.take(i as int).push(
                                sdv[i as int],
                            ));
                            lemma_entries_text_snoc(root@, sdv.take(i as int), sdv[i as int]);
                            assert(out@ =~= GALLERY_HEAD@ + entries_text(
                                root@,
                                sdv.take(i + 1),
                            ));
                        }
                    },
                }
                i += 1;
            }
            proof {
                assert(sdv.take(n as int) =~= sdv);
                assert(all_configured(sdv));
                lemma_sort_images_configured(imgs);
            }
            Ok(out)
        },
    }
}

} // verus!

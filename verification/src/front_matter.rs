//! Front-matter parsing: a content file is split on a fixed delimiter into
//! preamble, metadata block and body; the metadata block is decoded as a
//! mapping and must carry a title, a date and a tagline.

use crate::text::find_at;
use crate::text::find_from;
use vstd::prelude::*;
use vstd::string::StrSliceExecFns;
use vstd::string::StringExecFns;

verus! {

/// The delimiter that separates the front-matter block.
pub open spec fn delim() -> Seq<char> {
    seq!['-', '-', '-']
}

/// A content file split at the first two occurrences of the delimiter:
/// preamble, metadata block, body.  `None` when fewer than two
/// occurrences exist.
pub open spec fn split3(s: Seq<char>) -> Option<(Seq<char>, Seq<char>, Seq<char>)> {
    match find_at(s, delim(), 0) {
        None => None,
        Some(i) => {
            let rest = s.skip(i + 3);
            match find_at(rest, delim(), 0) {
                None => None,
                Some(j) => Some((s.take(i), rest.take(j), rest.skip(j + 3))),
            }
        },
    }
}

/// Splits a content file at the first two delimiter occurrences, as
/// [`split3`] describes it.
pub fn split_front_matter(s: &str) -> (r: Option<(String, String, String)>)
    ensures
        match r {
            Some(parts) => split3(s@) == Some((parts.0@, parts.1@, parts.2@)),
            None => split3(s@) is None,
        },
{
    let n = s.unicode_len();
    let sep = "---";
    proof {
        reveal_strlit("---");
        assert(sep@ =~= delim());
    }
    let i = match find_from(s, 0, sep) {
        Some(i) => i,
        None => {
            return None;
        },
    };
    proof {
        crate::text::lemma_find_at_found(s@, delim(), 0);
    }
    let rest = s.substring_char(i + 3, n);
    proof {
        assert(rest@ =~= s@.skip(i + 3));
    }
    let j = match find_from(rest, 0, sep) {
        Some(j) => j,
        None => {
            return None;
        },
    };
    proof {
        crate::text::lemma_find_at_found(rest@, delim(), 0);
    }
    let pre = s.substring_char(0, i);
    let rn = rest.unicode_len();
    let mid = rest.substring_char(0, j);
    let body = rest.substring_char(j + 3, rn);
    proof {
        assert(pre@ =~= s@.take(i as int));
        assert(mid@ =~= rest@.take(j as int));
        assert(body@ =~= rest@.skip(j + 3));
    }
    Some((pre.to_owned(), mid.to_owned(), body.to_owned()))
}

/// What decoding the metadata block as a mapping from text keys to text
/// values yields; `None` when the block is not such a mapping.
pub uninterp spec fn yaml_entries(s: Seq<char>) -> Option<Seq<(Seq<char>, Seq<char>)>>;

/// Relies on `serde_yaml::from_str` decoding into a
/// `BTreeMap<String, String>`: the block parses into key/value pairs of
/// text exactly when it is a YAML mapping of string scalars, and the
/// resulting pairs, ordered by key, depend on the block alone.
#[verifier::external_body]
fn yaml_mapping(s: &str) -> (r: Option<Vec<(String, String)>>)
    ensures
        match r {
            Some(v) => yaml_entries(s@) == Some(v.deep_view()),
            None => yaml_entries(s@) is None,
        },
{
    match serde_yaml::from_str::<std::collections::BTreeMap<String, String>>(s) {
        Ok(m) => Some(m.into_iter().collect()),
        Err(_) => None,
    }
}

/// The value bound to `key` in the first pair that carries it.
pub open spec fn lookup(entries: Seq<(Seq<char>, Seq<char>)>, key: Seq<char>) -> Option<
    Seq<char>,
>
    decreases entries.len(),
{
    if entries.len() == 0 {
        None
    } else if entries[0].0 == key {
        Some(entries[0].1)
    } else {
        lookup(entries.skip(1), key)
    }
}

/// Looks `key` up among the decoded pairs, as [`lookup`] describes it.
fn lookup_entry(entries: &Vec<(String, String)>, key: &str) -> (r: Option<String>)
    ensures
        match r {
            Some(v) => lookup(entries.deep_view(), key@) == Some(v@),
            None => lookup(entries.deep_view(), key@) is None,
        },
{
    let n = entries.len();
    let mut i: usize = 0;
    proof {
        assert(entries.deep_view().skip(0) =~= entries.deep_view());
    }
    while i < n
        invariant
            n == entries.len(),
            i <= n,
            entries.deep_view().len() == n,
            lookup(entries.deep_view(), key@) == lookup(
                entries.deep_view().skip(i as int),
                key@,
            ),
        decreases n - i,
    {
        let ghost tail = entries.deep_view().skip(i as int);
        proof {
            assert(tail[0] == entries.deep_view()[i as int]);
            assert(tail.skip(1) =~= entries.deep_view().skip(i + 1));
        }
        if str_eq(entries[i].0.as_str(), key) {
            return Some(entries[i].1.clone());
        }
        i += 1;
    }
    proof {
        assert(entries.deep_view().skip(n as int) =~= Seq::<(Seq<char>, Seq<char>)>::empty());
    }
    None
}

/// Whether two strings hold the same characters.
fn str_eq(a: &str, b: &str) -> (r: bool)
    ensures
        r == (a@ == b@),
{
    let la = a.unicode_len();
    let lb = b.unicode_len();
    if la != lb {
        return false;
    }
    let mut i: usize = 0;
    while i < la
        invariant
            la == a@.len() == b@.len(),
            i <= la,
            forall|k: int| 0 <= k < i ==> a@[k] == b@[k],
        decreases la - i,
    {
        if a.get_char(i) != b.get_char(i) {
            return false;
        }
        i += 1;
    }
    proof {
        assert(a@ =~= b@);
    }
    true
}

/// The three required front-matter fields of an article.
pub struct Metadata {
    pub title: String,
    pub date: String,
    pub tagline: String,
}

/// The mathematical content of a [`Metadata`] record.
pub ghost struct MetadataModel {
    pub title: Seq<char>,
    pub date: Seq<char>,
    pub tagline: Seq<char>,
}

impl View for Metadata {
    type V = MetadataModel;

    open spec fn view(&self) -> MetadataModel {
        MetadataModel { title: self.title@, date: self.date@, tagline: self.tagline@ }
    }
}

/// Why a content file's front matter was rejected.
#[derive(Clone, Copy, Debug, PartialEq, Eq, Structural)]
pub enum FrontMatterError {
    /// The file holds fewer than two delimiter occurrences.
    MissingDelimiters,
    /// The metadata block is not a mapping of text keys to text values.
    BadMetadataBlock,
    /// The mapping lacks one of `title`, `date`, `tagline`.
    MissingField,
}

/// The front matter and body that parsing a content file yields, or the
/// reason it is rejected.
pub open spec fn parse_front_matter_spec(s: Seq<char>) -> Result<
    (MetadataModel, Seq<char>),
    FrontMatterError,
> {
    match split3(s) {
        None => Err(FrontMatterError::MissingDelimiters),
        Some((pre, mid, body)) => match yaml_entries(mid) {
            None => Err(FrontMatterError::BadMetadataBlock),
            Some(es) => match (lookup(es, "title"@), lookup(es, "date"@), lookup(
                es,
                "tagline"@,
            )) {
                (Some(t), Some(d), Some(g)) => Ok(
                    (MetadataModel { title: t, date: d, tagline: g }, body),
                ),
                _ => Err(FrontMatterError::MissingField),
            },
        },
    }
}

/// Splits a content file on the front-matter delimiter and decodes the
/// metadata block, exactly as [`parse_front_matter_spec`] describes it.
/// A file with fewer than two delimiter occurrences is rejected, if and
/// only if, with [`FrontMatterError::MissingDelimiters`].
pub fn parse_front_matter(s: &str) -> (r: Result<(Metadata, String), FrontMatterError>)
    ensures
        match r {
            Ok(parsed) => parse_front_matter_spec(s@) == Ok::<_, FrontMatterError>(
                (parsed.0@, parsed.1@),
            ),
            Err(e) => parse_front_matter_spec(s@) == Err::<(MetadataModel, Seq<char>), _>(e),
        },
        (r matches Err(FrontMatterError::MissingDelimiters)) <==> split3(s@) is None,
{
    let (_pre, mid, body) = match split_front_matter(s) {
        Some(parts) => parts,
        None => {
            return Err(FrontMatterError::MissingDelimiters);
        },
    };
    let entries = match yaml_mapping(mid.as_str()) {
        Some(es) => es,
        None => {
            return Err(FrontMatterError::BadMetadataBlock);
        },
    };
    let title = lookup_entry(&entries, "title");
    let date = lookup_entry(&entries, "date");
    let tagline = lookup_entry(&entries, "tagline");
    match (title, date, tagline) {
        (Some(t), Some(d), Some(g)) => Ok(
            (Metadata { title: t, date: d, tagline: g }, body),
        ),
        _ => Err(FrontMatterError::MissingField),
    }
}

} // verus!

//! Character-level text utilities: substring search, global replacement,
//! lexicographic comparison, and file-name stem/extension splitting.

use vstd::prelude::*;
use vstd::string::StrSliceExecFns;
use vstd::string::StringExecFns;

verus! {

/// `pat` occurs in `s` starting at position `i`.
pub open spec fn match_at(s: Seq<char>, pat: Seq<char>, i: int) -> bool {
    0 <= i && i + pat.len() <= s.len() && s.subrange(i, i + pat.len() as int) == pat
}

/// Position of the first occurrence of `pat` in `s` at or after `from`,
/// if there is one.
pub open spec fn find_at(s: Seq<char>, pat: Seq<char>, from: int) -> Option<int>
    decreases s.len() - from + 1,
{
    if from < 0 || from + pat.len() > s.len() {
        None
    } else if match_at(s, pat, from) {
        Some(from)
    } else {
        find_at(s, pat, from + 1)
    }
}

/// A search may start anywhere in a region known to hold no match:
/// the result is the same.
proof fn lemma_find_at_shift(s: Seq<char>, pat: Seq<char>, from: int, to: int)
    requires
        0 <= from <= to,
        forall|k: int| from <= k < to ==> !match_at(s, pat, k),
    ensures
        find_at(s, pat, from) == find_at(s, pat, to),
    decreases to - from,
{
    if from < to {
        lemma_find_at_shift(s, pat, from + 1, to);
    }
}

/// What a successful or failed search means, spelled out for callers.
pub proof fn lemma_find_at_found(s: Seq<char>, pat: Seq<char>, from: int)
    requires
        from >= 0,
    ensures
        match find_at(s, pat, from) {
            Some(i) => from <= i && match_at(s, pat, i) && forall|k: int|
                from <= k < i ==> !match_at(s, pat, k),
            None => forall|k: int| from <= k ==> !match_at(s, pat, k),
        },
    decreases s.len() - from + 1,
{
    if from + pat.len() > s.len() {
        assert forall|k: int| from <= k implies !match_at(s, pat, k) by {
            assert(k + pat.len() > s.len());
        }
    } else if !match_at(s, pat, from) {
        lemma_find_at_found(s, pat, from + 1);
    }
}

/// Whether `pat` occurs in `s` at position `i`, checked character by
/// character.
pub fn is_match_at(s: &str, i: usize, pat: &str) -> (b: bool)
    requires
        i + pat@.len() <= s@.len(),
        s@.len() <= usize::MAX,
    ensures
        b == match_at(s@, pat@, i as int),
{
    let m = pat.unicode_len();
    let mut j: usize = 0;
    while j < m
        invariant
            m == pat@.len(),
            i + m <= s@.len() <= usize::MAX,
            j <= m,
            forall|k: int| 0 <= k < j ==> s@[i + k] == pat@[k],
        decreases m - j,
    {
        if s.get_char(i + j) != pat.get_char(j) {
            assert(s@.subrange(i as int, i + m as int)[j as int] != pat@[j as int]);
            return false;
        }
        j += 1;
    }
    assert(s@.subrange(i as int, i + m as int) =~= pat@);
    true
}

/// First occurrence of `pat` in `s` at or after `from`, as
/// [`find_at`] describes it.
pub fn find_from(s: &str, from: usize, pat: &str) -> (r: Option<usize>)
    ensures
        match r {
            Some(i) => find_at(s@, pat@, from as int) == Some(i as int),
            None => find_at(s@, pat@, from as int) is None,
        },
{
    let n = s.unicode_len();
    let m = pat.unicode_len();
    if m == 0 {
        if from <= n {
            assert(s@.subrange(from as int, from as int) =~= pat@);
            return Some(from);
        }
        return None;
    }
    if m > n || from > n - m {
        proof {
            lemma_find_at_shift_none(s@, pat@, from as int);
        }
        return None;
    }
    let mut i: usize = from;
    while i <= n - m
        invariant
            n == s@.len(),
            m == pat@.len(),
            1 <= m <= n,
            from <= i <= n - m + 1,
            forall|k: int| from <= k < i ==> !match_at(s@, pat@, k),
        decreases n + 1 - i,
    {
        if is_match_at(s, i, pat) {
            proof {
                lemma_find_at_shift(s@, pat@, from as int, i as int);
            }
            return Some(i);
        }
        i += 1;
    }
    proof {
        lemma_find_at_shift(s@, pat@, from as int, i as int);
        lemma_find_at_shift_none(s@, pat@, i as int);
    }
    None
}

/// A search that starts past the last position where `pat` could fit
/// finds nothing.
proof fn lemma_find_at_shift_none(s: Seq<char>, pat: Seq<char>, from: int)
    requires
        from + pat.len() > s.len() || from < 0,
    ensures
        from >= 0 ==> find_at(s, pat, from) is None,
{
}

/// `s` with every occurrence of `pat` replaced by `rep`, scanning left to
/// right and resuming after each replacement.  An empty pattern replaces
/// nothing.
pub open spec fn replace_all(s: Seq<char>, pat: Seq<char>, rep: Seq<char>) -> Seq<char>
    decreases s.len(),
{
    if pat.len() == 0 || s.len() < pat.len() {
        s
    } else if s.take(pat.len() as int) == pat {
        rep + replace_all(s.skip(pat.len() as int), pat, rep)
    } else {
        s.take(1) + replace_all(s.skip(1), pat, rep)
    }
}

/// [`replace_all`], character by character on strings.
pub fn replace_all_str(s: &str, pat: &str, rep: &str) -> (r: String)
    requires
        pat@.len() >= 1,
    ensures
        r@ == replace_all(s@, pat@, rep@),
{
    let n = s.unicode_len();
    let m = pat.unicode_len();
    let mut out = String::new();
    let mut i: usize = 0;
    proof {
        assert(s@.skip(0) =~= s@);
        assert(Seq::<char>::empty() + replace_all(s@, pat@, rep@) =~= replace_all(
            s@,
            pat@,
            rep@,
        ));
    }
    while i < n
        invariant
            n == s@.len(),
            m == pat@.len() >= 1,
            i <= n,
            replace_all(s@, pat@, rep@) == out@ + replace_all(
                s@.skip(i as int),
                pat@,
                rep@,
            ),
        decreases n - i,
    {
        let ghost tail = s@.skip(i as int);
        if m <= n - i && is_match_at(s, i, pat) {
            proof {
                assert(tail.take(m as int) =~= s@.subrange(i as int, i + m as int));
                assert(tail.skip(m as int) =~= s@.skip(i + m as int));
            }
            out.append(rep);
            i += m;
        } else {
            proof {
                if m <= n - i {
                    assert(tail.take(m as int) =~= s@.subrange(i as int, i + m as int));
                }
                assert(tail.take(1) =~= seq![s@[i as int]]);
                assert(tail.skip(1) =~= s@.skip(i + 1));
            }
            let piece = s.substring_char(i, i + 1);
            proof {
                assert(piece@ =~= seq![s@[i as int]]);
            }
            out.append(piece);
            i += 1;
        }
    }
    proof {
        assert(s@.skip(n as int) =~= Seq::<char>::empty());
        assert(out@ + Seq::<char>::empty() =~= out@);
    }
    out
}

/// A match inside a suffix is a match in the whole, shifted.
pub proof fn lemma_match_at_skip(s: Seq<char>, pat: Seq<char>, d: int, i: int)
    requires
        0 <= d <= s.len(),
        0 <= i,
    ensures
        match_at(s.skip(d), pat, i) == match_at(s, pat, i + d),
{
    if i + pat.len() <= s.len() - d {
        assert(s.skip(d).subrange(i, i + pat.len() as int) =~= s.subrange(
            d + i,
            d + i + pat.len() as int,
        ));
        if match_at(s.skip(d), pat, i) {
            assert(match_at(s, pat, i + d));
        }
        if match_at(s, pat, i + d) {
            assert(match_at(s.skip(d), pat, i));
        }
    }
}

/// Text without an occurrence of the pattern is left unchanged.
pub proof fn lemma_replace_all_no_match(s: Seq<char>, pat: Seq<char>, rep: Seq<char>)
    requires
        pat.len() >= 1,
        forall|i: int| !match_at(s, pat, i),
    ensures
        replace_all(s, pat, rep) == s,
    decreases s.len(),
{
    if s.len() >= pat.len() {
        assert(s.take(pat.len() as int) =~= s.subrange(0, pat.len() as int));
        assert(!match_at(s, pat, 0));
        assert(s.take(pat.len() as int) != pat);
        assert forall|i: int| !match_at(s.skip(1), pat, i) by {
            if i >= 0 {
                lemma_match_at_skip(s, pat, 1, i);
            }
        }
        lemma_replace_all_no_match(s.skip(1), pat, rep);
        assert(s.take(1) + s.skip(1) =~= s);
    }
}

/// `a` is lexicographically at or before `b`, comparing characters by
/// code point, as Rust orders strings and paths.
pub open spec fn lex_le(a: Seq<char>, b: Seq<char>) -> bool
    decreases a.len(),
{
    if a.len() == 0 {
        true
    } else if b.len() == 0 {
        false
    } else if (a[0] as u32) < (b[0] as u32) {
        true
    } else if (a[0] as u32) > (b[0] as u32) {
        false
    } else {
        lex_le(a.skip(1), b.skip(1))
    }
}

/// Comparing two sequences that agree on a common prefix comes down to
/// comparing what follows the prefix.
proof fn lemma_lex_le_common_prefix(a: Seq<char>, b: Seq<char>, i: int)
    requires
        0 <= i <= a.len(),
        i <= b.len(),
        forall|k: int| 0 <= k < i ==> a[k] == b[k],
    ensures
        lex_le(a, b) == lex_le(a.skip(i), b.skip(i)),
    decreases i,
{
    if i == 0 {
        assert(a.skip(0) =~= a);
        assert(b.skip(0) =~= b);
    } else {
        assert(a.len() > 0 && b.len() > 0);
        assert(a[0] == b[0]);
        lemma_lex_le_common_prefix(a.skip(1), b.skip(1), i - 1);
        assert(a.skip(1).skip(i - 1) =~= a.skip(i));
        assert(b.skip(1).skip(i - 1) =~= b.skip(i));
    }
}

/// [`lex_le`] on strings.
pub fn str_le(a: &str, b: &str) -> (r: bool)
    ensures
        r == lex_le(a@, b@),
{
    let la = a.unicode_len();
    let lb = b.unicode_len();
    let mut i: usize = 0;
    while i < la && i < lb
        invariant
            la == a@.len(),
            lb == b@.len(),
            i <= la,
            i <= lb,
            forall|k: int| 0 <= k < i ==> a@[k] == b@[k],
        decreases la - i,
    {
        let ca = a.get_char(i) as u32;
        let cb = b.get_char(i) as u32;
        if ca < cb {
            proof {
                lemma_lex_le_common_prefix(a@, b@, i as int);
            }
            return true;
        }
        if ca > cb {
            proof {
                lemma_lex_le_common_prefix(a@, b@, i as int);
            }
            return false;
        }
        i += 1;
    }
    proof {
        lemma_lex_le_common_prefix(a@, b@, i as int);
    }
    la <= lb
}

/// Any two sequences compare one way or the other.
pub proof fn lemma_lex_le_total(a: Seq<char>, b: Seq<char>)
    ensures
        lex_le(a, b) || lex_le(b, a),
    decreases a.len(),
{
    if a.len() > 0 && b.len() > 0 && !((a[0] as u32) < (b[0] as u32)) && !((a[0] as u32)
        > (b[0] as u32)) {
        lemma_lex_le_total(a.skip(1), b.skip(1));
    }
}

/// Lexicographic order is transitive.
pub proof fn lemma_lex_le_trans(a: Seq<char>, b: Seq<char>, c: Seq<char>)
    requires
        lex_le(a, b),
        lex_le(b, c),
    ensures
        lex_le(a, c),
    decreases a.len(),
{
    if a.len() > 0 {
        if !((a[0] as u32) < (b[0] as u32)) && !((b[0] as u32) < (c[0] as u32)) {
            lemma_lex_le_trans(a.skip(1), b.skip(1), c.skip(1));
        }
    }
}

/// Index of the last `.` in a file name, not counting a leading dot:
/// the point where Rust splits a name into stem and extension.
pub open spec fn last_dot(s: Seq<char>) -> Option<int>
    decreases s.len(),
{
    if s.len() <= 1 {
        None
    } else if s[s.len() - 1] == '.' {
        Some(s.len() - 1)
    } else {
        last_dot(s.take(s.len() - 1))
    }
}

/// The file name without its extension.
pub open spec fn stem_of(s: Seq<char>) -> Seq<char> {
    match last_dot(s) {
        Some(i) => s.take(i),
        None => s,
    }
}

/// The extension, the part after the last dot, when the name has one.
pub open spec fn ext_of(s: Seq<char>) -> Option<Seq<char>> {
    match last_dot(s) {
        Some(i) => Some(s.skip(i + 1)),
        None => None,
    }
}

/// [`last_dot`] on strings.
fn find_last_dot(s: &str) -> (r: Option<usize>)
    ensures
        match r {
            Some(i) => last_dot(s@) == Some(i as int) && 0 < i < s@.len(),
            None => last_dot(s@) is None,
        },
{
    let n = s.unicode_len();
    let mut j: usize = n;
    proof {
        assert(s@.take(n as int) =~= s@);
    }
    while j > 1
        invariant
            n == s@.len(),
            j <= n,
            last_dot(s@) == last_dot(s@.take(j as int)),
        decreases j,
    {
        if s.get_char(j - 1) == '.' {
            return Some(j - 1);
        }
        proof {
            assert(s@.take(j as int).take(j - 1) =~= s@.take(j - 1));
        }
        j -= 1;
    }
    None
}

/// The file name without its extension, as [`stem_of`] describes it.
pub fn file_stem(s: &str) -> (r: String)
    ensures
        r@ == stem_of(s@),
{
    match find_last_dot(s) {
        Some(i) => {
            let r = s.substring_char(0, i);
            proof {
                assert(r@ =~= s@.take(i as int));
            }
            r.to_owned()
        },
        None => s.to_owned(),
    }
}

/// Whether the name's extension is exactly `md`.
pub open spec fn spec_is_markdown(s: Seq<char>) -> bool {
    ext_of(s) == Some(seq!['m', 'd'])
}

/// Whether a file name names a Markdown source, by its extension.
pub fn is_markdown(s: &str) -> (r: bool)
    ensures
        r == spec_is_markdown(s@),
{
    let n = s.unicode_len();
    match find_last_dot(s) {
        Some(i) => {
            if n - i == 3 {
                let ok = s.get_char(i + 1) == 'm' && s.get_char(i + 2) == 'd';
                proof {
                    if ok {
                        assert(s@.skip(i + 1) =~= seq!['m', 'd']);
                    } else {
                        assert(s@.skip(i + 1) != seq!['m', 'd']);
                    }
                }
                ok
            } else {
                proof {
                    assert(s@.skip(i + 1).len() != 2);
                }
                false
            }
        },
        None => false,
    }
}

} // verus!

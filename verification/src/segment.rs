//! Text segmentation primitives: a line is read as its sequence of extended
//! grapheme clusters, so that horizontal positions count user-perceived
//! glyphs, not bytes. A cluster counts as whitespace when every character
//! composing it is whitespace.

use unicode_segmentation::UnicodeSegmentation;
use vstd::prelude::*;
use vstd::string::*;

verus! {

/// The sequence of extended grapheme clusters of a text, in order.
pub uninterp spec fn graphemes_of(s: Seq<char>) -> Seq<Seq<char>>;

/// Whether a character is Unicode whitespace.
pub uninterp spec fn char_is_whitespace(c: char) -> bool;

/// The views of a sequence of owned strings.
pub open spec fn strings_view(ss: Seq<String>) -> Seq<Seq<char>> {
    ss.map_values(|s: String| s@)
}

/// The concatenation of the clusters with indices in `[from, to)`.
pub open spec fn concat_range(cl: Seq<Seq<char>>, from: int, to: int) -> Seq<char>
    decreases to - from,
{
    if from >= to {
        Seq::empty()
    } else {
        cl[from] + concat_range(cl, from + 1, to)
    }
}

pub proof fn lemma_concat_range_snoc(cl: Seq<Seq<char>>, from: int, to: int)
    requires
        from <= to,
    ensures
        concat_range(cl, from, to + 1) =~= concat_range(cl, from, to) + cl[to],
    decreases to - from,
{
    if from < to {
        lemma_concat_range_snoc(cl, from + 1, to);
    } else {
        assert(concat_range(cl, from + 1, from + 1) =~= Seq::<char>::empty());
    }
}

/// A cluster is whitespace iff every character it composes is whitespace.
pub open spec fn cluster_is_ws(g: Seq<char>) -> bool {
    forall|i: int| 0 <= i < g.len() ==> char_is_whitespace(g[i])
}

/// Relies on `UnicodeSegmentation::graphemes` with extended clusters: it
/// splits the line into its grapheme clusters, which partition the text in
/// order, so their concatenation is the line itself.
#[verifier::external_body]
pub(crate) fn grapheme_clusters(line: &str) -> (r: Vec<String>)
    ensures
        strings_view(r@) == graphemes_of(line@),
        concat_range(strings_view(r@), 0, r@.len() as int) == line@,
{
    let mut v = Vec::new();
    for g in UnicodeSegmentation::graphemes(line, true) {
        v.push(g.to_string());
    }
    v
}

/// Relies on `char::is_whitespace`: a fixed Unicode property of the
/// character alone.
#[verifier::external_body]
pub(crate) fn is_whitespace_char(c: char) -> (r: bool)
    ensures
        r == char_is_whitespace(c),
{
    c.is_whitespace()
}

/// Whether every character of the cluster is whitespace.
pub(crate) fn cluster_is_whitespace(g: &str) -> (r: bool)
    ensures
        r == cluster_is_ws(g@),
{
    let n = g.unicode_len();
    let mut i: usize = 0;
    while i < n
        invariant
            i <= n,
            n == g@.len(),
            forall|k: int| 0 <= k < i ==> char_is_whitespace(g@[k]),
        decreases n - i,
    {
        if !is_whitespace_char(g.get_char(i)) {
            return false;
        }
        i += 1;
    }
    true
}

/// The single string spanning the clusters with indices in `[from, to)`.
pub(crate) fn concat_clusters(clusters: &Vec<String>, from: usize, to: usize) -> (r: String)
    requires
        from <= to,
        to <= clusters@.len(),
    ensures
        r@ == concat_range(strings_view(clusters@), from as int, to as int),
{
    let mut r = String::new();
    let mut i: usize = from;
    assert(concat_range(strings_view(clusters@), from as int, from as int) =~= Seq::<char>::empty());
    while i < to
        invariant
            from <= i <= to,
            to <= clusters@.len(),
            r@ == concat_range(strings_view(clusters@), from as int, i as int),
        decreases to - i,
    {
        proof {
            lemma_concat_range_snoc(strings_view(clusters@), from as int, i as int);
        }
        r.append(clusters[i].as_str());
        i += 1;
    }
    r
}

} // verus!

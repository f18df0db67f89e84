//! The column-alignment parser: a tokenizer that splits a line into maximal
//! non-whitespace runs of grapheme clusters, a set-once header model, and a
//! row aligner that assigns each token of a data line to the nearest header
//! column and merges same-column tokens into one cell.

use vstd::prelude::*;
use crate::segment::cluster_is_whitespace;
use crate::segment::cluster_is_ws;
use crate::segment::concat_clusters;
use crate::segment::concat_range;
use crate::segment::grapheme_clusters;
use crate::segment::graphemes_of;
use crate::segment::strings_view;

verus! {

/// A token or header column located on a line. `start..pos_end` is its glyph
/// position range, used for alignment distance; `start..text_end` is the
/// range of cluster indices its text spans; `name` is that text.
pub ghost struct GCol {
    pub name: Seq<char>,
    pub start: int,
    pub pos_end: int,
    pub text_end: int,
}

/// A column of the established header, or a token of a data line: its text
/// and its glyph coordinates on the line it came from.
pub struct Column {
    pub name: String,
    pub pos_start: usize,
    pub pos_end: usize,
    pub text_end: usize,
}

impl View for Column {
    type V = GCol;

    open spec fn view(&self) -> GCol {
        GCol {
            name: self.name@,
            start: self.pos_start as int,
            pos_end: self.pos_end as int,
            text_end: self.text_end as int,
        }
    }
}

/// The tokens of the cluster sequence `cl` from index `i` on, given that a
/// token opened at `start` is still active. A whitespace cluster closes the
/// active token just before itself; a non-whitespace cluster opens one if
/// none is active; a token still active at line end is flushed. Position
/// ranges are half-open: `pos_end` is one past the token's last cluster.
pub open spec fn tokens_from(cl: Seq<Seq<char>>, i: int, start: Option<int>) -> Seq<GCol>
    decreases cl.len() - i,
{
    if i >= cl.len() {
        match start {
            Option::None => Seq::empty(),
            Option::Some(s) => seq![
                GCol {
                    name: concat_range(cl, s, cl.len() as int),
                    start: s,
                    pos_end: cl.len() as int,
                    text_end: cl.len() as int,
                },
            ],
        }
    } else if cluster_is_ws(cl[i]) {
        match start {
            Option::None => tokens_from(cl, i + 1, Option::None),
            Option::Some(s) => seq![
                GCol { name: concat_range(cl, s, i), start: s, pos_end: i, text_end: i },
            ] + tokens_from(cl, i + 1, Option::None),
        }
    } else {
        match start {
            Option::None => tokens_from(cl, i + 1, Option::Some(i)),
            Option::Some(_) => tokens_from(cl, i + 1, start),
        }
    }
}

/// All tokens of a cluster sequence.
pub open spec fn cluster_columns(cl: Seq<Seq<char>>) -> Seq<GCol> {
    tokens_from(cl, 0, Option::None)
}

/// All tokens of a line of text.
pub open spec fn line_columns(line: Seq<char>) -> Seq<GCol> {
    cluster_columns(graphemes_of(line))
}

/// Well-formedness of one token over a line of `n` clusters.
pub open spec fn col_wf(t: GCol, n: int) -> bool {
    &&& 0 <= t.start
    &&& t.start <= t.pos_end
    &&& t.pos_end <= n
    &&& t.start < t.text_end
    &&& t.text_end <= n
}

/// The spec start bound: every token emitted from state `(i, start)` begins
/// no earlier than the active start, or `i` when none is active.
pub open spec fn start_bound(i: int, start: Option<int>) -> int {
    match start {
        Option::None => i,
        Option::Some(s) => s,
    }
}

pub proof fn lemma_tokens_from_wf(cl: Seq<Seq<char>>, i: int, start: Option<int>)
    requires
        0 <= i <= cl.len(),
        match start {
            Option::None => true,
            Option::Some(s) => 0 <= s < i,
        },
    ensures
        ({
            let ts = tokens_from(cl, i, start);
            &&& forall|k: int| 0 <= k < ts.len() ==> col_wf(#[trigger] ts[k], cl.len() as int)
            &&& forall|k: int, j: int|
                0 <= k < j < ts.len() ==> ts[k].text_end <= ts[j].start
            &&& forall|k: int| 0 <= k < ts.len() ==> (#[trigger] ts[k]).start >= start_bound(i, start)
        }),
    decreases cl.len() - i,
{
    let ts = tokens_from(cl, i, start);
    let n = cl.len() as int;
    if i >= cl.len() {
        match start {
            Option::None => {
                assert(ts.len() == 0);
            },
            Option::Some(s) => {
                assert(ts == seq![
                    GCol { name: concat_range(cl, s, n), start: s, pos_end: n, text_end: n },
                ]);
                assert(ts.len() == 1);
                assert(col_wf(ts[0], n));
            },
        }
    } else if cluster_is_ws(cl[i]) {
        lemma_tokens_from_wf(cl, i + 1, Option::<int>::None);
        match start {
            Option::None => {
                assert(ts == tokens_from(cl, i + 1, Option::<int>::None));
            },
            Option::Some(s) => {
                let head = GCol {
                    name: concat_range(cl, s, i),
                    start: s,
                    pos_end: i,
                    text_end: i,
                };
                let tail = tokens_from(cl, i + 1, Option::<int>::None);
                assert(ts == seq![head] + tail);
                assert(ts[0] == head);
                assert(col_wf(head, n));
                assert(forall|k: int| 1 <= k < ts.len() ==> ts[k] == tail[k - 1]);
                assert(forall|k: int|
                    1 <= k < ts.len() ==> col_wf(#[trigger] ts[k], n) && ts[k].start >= i + 1);
            },
        }
    } else {
        match start {
            Option::None => {
                lemma_tokens_from_wf(cl, i + 1, Option::Some(i));
                assert(ts == tokens_from(cl, i + 1, Option::Some(i)));
            },
            Option::Some(s) => {
                lemma_tokens_from_wf(cl, i + 1, start);
                assert(ts == tokens_from(cl, i + 1, start));
            },
        }
    }
}

/// The ghost state of an active token while scanning.
pub open spec fn start_view(start: Option<usize>) -> Option<int> {
    match start {
        Option::None => Option::None,
        Option::Some(s) => Option::Some(s as int),
    }
}

/// Splits a line, given as its grapheme clusters, into its maximal
/// whitespace-delimited tokens.
pub(crate) fn parse_line_to_columns(clusters: &Vec<String>) -> (cols: Vec<Column>)
    ensures
        cols@.map_values(|c: Column| c@) == cluster_columns(strings_view(clusters@)),
{
    let ghost cl = strings_view(clusters@);
    let n = clusters.len();
    let mut cols: Vec<Column> = Vec::new();
    let mut start: Option<usize> = Option::None;
    let mut pos: usize = 0;
    while pos < n
        invariant
            pos <= n,
            n == clusters@.len(),
            cl == strings_view(clusters@),
            match start {
                Option::None => true,
                Option::Some(s) => s < pos,
            },
            cluster_columns(cl) == cols@.map_values(|c: Column| c@) + tokens_from(
                cl,
                pos as int,
                start_view(start),
            ),
        decreases n - pos,
    {
        proof {
            assert(cl[pos as int] == clusters@[pos as int]@);
        }
        let ghost prev_cols = cols@;
        let ghost prev_start = start;
        if cluster_is_whitespace(clusters[pos].as_str()) {
            if let Option::Some(s) = start {
                let name = concat_clusters(clusters, s, pos);
                cols.push(Column { name, pos_start: s, pos_end: pos, text_end: pos });
                start = Option::None;
                proof {
                    assert(tokens_from(cl, pos as int, start_view(prev_start)) =~= seq![
                        cols@.last()@,
                    ] + tokens_from(cl, pos + 1, Option::<int>::None));
                    assert(cols@.map_values(|c: Column| c@) =~= prev_cols.map_values(
                        |c: Column| c@,
                    ) + seq![cols@.last()@]);
                    assert(cluster_columns(cl) =~= cols@.map_values(|c: Column| c@)
                        + tokens_from(cl, pos + 1, start_view(start)));
                }
            }
        } else {
            if start.is_none() {
                start = Option::Some(pos);
            }
        }
        pos += 1;
    }
    if let Option::Some(s) = start {
        let name = concat_clusters(clusters, s, n);
        let ghost prev_cols = cols@;
        cols.push(Column { name, pos_start: s, pos_end: n, text_end: n });
        proof {
            assert(tokens_from(cl, n as int, Option::Some(s as int)) =~= seq![cols@.last()@]);
            assert(cols@.map_values(|c: Column| c@) =~= prev_cols.map_values(|c: Column| c@)
                + seq![cols@.last()@]);
        }
    }
    proof {
        assert(cluster_columns(cl) =~= cols@.map_values(|c: Column| c@));
    }
    cols
}

/// The absolute difference of two glyph positions.
pub open spec fn abs_diff(a: int, b: int) -> int {
    if a >= b {
        a - b
    } else {
        b - a
    }
}

/// The alignment distance between a token and a header column: the smaller
/// of the left-edge and the right-edge distance of their position ranges, so
/// that both left-aligned text columns and right-aligned numeric columns
/// match without a per-column alignment flag.
pub open spec fn spec_distance(t: GCol, h: GCol) -> int {
    let l = abs_diff(t.start, h.start);
    let r = abs_diff(t.pos_end, h.pos_end);
    if l <= r {
        l
    } else {
        r
    }
}

/// The index of the header column nearest to `t`, scanning from `i` with
/// `best` the nearest index seen so far; only a strictly smaller distance
/// displaces it, so the first column wins a tie.
pub open spec fn nearest_from(hdr: Seq<GCol>, t: GCol, i: int, best: int) -> int
    decreases hdr.len() - i,
{
    if i >= hdr.len() {
        best
    } else if spec_distance(t, hdr[i]) < spec_distance(t, hdr[best]) {
        nearest_from(hdr, t, i + 1, i)
    } else {
        nearest_from(hdr, t, i + 1, best)
    }
}

/// The header column a token is assigned to: the one at minimal alignment
/// distance, ties resolved to the first column in header order.
pub open spec fn assigned_column(hdr: Seq<GCol>, t: GCol) -> int {
    nearest_from(hdr, t, 1, 0)
}

pub proof fn lemma_nearest_from_range(hdr: Seq<GCol>, t: GCol, i: int, best: int)
    requires
        0 <= i,
        0 <= best < hdr.len(),
    ensures
        0 <= nearest_from(hdr, t, i, best) < hdr.len(),
    decreases hdr.len() - i,
{
    if i < hdr.len() {
        if spec_distance(t, hdr[i]) < spec_distance(t, hdr[best]) {
            lemma_nearest_from_range(hdr, t, i + 1, i);
        } else {
            lemma_nearest_from_range(hdr, t, i + 1, best);
        }
    }
}

/// The tokens of a row that were assigned to header column `j`, in their
/// original left-to-right order.
pub open spec fn spec_group(hdr: Seq<GCol>, toks: Seq<GCol>, j: int) -> Seq<GCol>
    decreases toks.len(),
{
    if toks.len() == 0 {
        Seq::empty()
    } else {
        spec_group(hdr, toks.drop_last(), j) + if assigned_column(hdr, toks.last()) == j {
            seq![toks.last()]
        } else {
            Seq::empty()
        }
    }
}

/// The cell of header column `j` for a row with tokens `toks` over clusters
/// `cl`: empty when no token was assigned to `j`, otherwise the text from
/// the first assigned token's start cluster to the last assigned token's end
/// cluster, interior whitespace included.
pub open spec fn spec_cell(cl: Seq<Seq<char>>, hdr: Seq<GCol>, toks: Seq<GCol>, j: int) -> Seq<
    char,
> {
    let g = spec_group(hdr, toks, j);
    if g.len() == 0 {
        Seq::empty()
    } else {
        concat_range(cl, g.first().start, g.last().text_end)
    }
}

/// All cells of a data line under the header `hdr`: one per header column,
/// in header order.
pub open spec fn spec_row_cells(line: Seq<char>, hdr: Seq<GCol>) -> Seq<Seq<char>> {
    let cl = graphemes_of(line);
    let toks = cluster_columns(cl);
    Seq::new(hdr.len(), |j: int| spec_cell(cl, hdr, toks, j))
}

/// The names of the header's columns, in order.
pub open spec fn names_of(hdr: Seq<GCol>) -> Seq<Seq<char>> {
    hdr.map_values(|c: GCol| c.name)
}

/// What establishing a header does to the header state: only the first
/// establishment parses its line; any later one leaves the header as it is.
pub open spec fn spec_establish(h: Option<Seq<GCol>>, line: Seq<char>) -> Option<Seq<GCol>> {
    match h {
        Option::Some(_) => h,
        Option::None => Option::Some(line_columns(line)),
    }
}

/// Establishing a header is set-once: after a first establishment, a second
/// one, with whatever line, leaves the header exactly as the first left it.
pub proof fn lemma_establish_idempotent(h: Option<Seq<GCol>>, l1: Seq<char>, l2: Seq<char>)
    ensures
        spec_establish(spec_establish(h, l1), l2) == spec_establish(h, l1),
{
}

/// The column-alignment parser: holds the header model, set at most once.
pub struct TableParser {
    header: Option<Vec<Column>>,
}

impl View for TableParser {
    type V = Option<Seq<GCol>>;

    closed spec fn view(&self) -> Option<Seq<GCol>> {
        match self.header {
            Option::None => Option::None,
            Option::Some(v) => Option::Some(v@.map_values(|c: Column| c@)),
        }
    }
}

impl TableParser {
    /// A parser with no header established yet.
    pub fn new() -> (p: TableParser)
        ensures
            p@ is None,
    {
        TableParser { header: Option::None }
    }

    /// The names of the established header's columns.
    fn map_header(&self) -> (names: Vec<String>)
        requires
            self@ is Some,
        ensures
            strings_view(names@) == names_of(self@.unwrap()),
    {
        let mut names: Vec<String> = Vec::new();
        match &self.header {
            Option::Some(hdr) => {
                let mut i: usize = 0;
                while i < hdr.len()
                    invariant
                        i <= hdr@.len(),
                        names@.len() == i,
                        forall|k: int| 0 <= k < i ==> names@[k]@ == hdr@[k]@.name,
                    decreases hdr@.len() - i,
                {
                    names.push(hdr[i].name.clone());
                    i += 1;
                }
                proof {
                    assert(strings_view(names@) =~= names_of(self@.unwrap()));
                }
                names
            },
            Option::None => {
                proof {
                    assert(false);
                }
                Vec::new()
            },
        }
    }

    /// Establishes the header from `line` unless one is already established
    /// (set-once: only the first call has effect), and returns the names of
    /// the established header's columns.
    pub fn parse_header(&mut self, line: &str) -> (names: Vec<String>)
        ensures
            final(self)@ == spec_establish(old(self)@, line@),
            final(self)@ is Some,
            strings_view(names@) == names_of(final(self)@.unwrap()),
    {
        if self.header.is_none() {
            let clusters = grapheme_clusters(line);
            let cols = parse_line_to_columns(&clusters);
            self.header = Option::Some(cols);
        }
        self.map_header()
    }

    /// The alignment distance between a token and a header column.
    fn calc_distance(t: &Column, h: &Column) -> (d: usize)
        ensures
            d as int == spec_distance(t@, h@),
    {
        let l = if t.pos_start >= h.pos_start {
            t.pos_start - h.pos_start
        } else {
            h.pos_start - t.pos_start
        };
        let r = if t.pos_end >= h.pos_end {
            t.pos_end - h.pos_end
        } else {
            h.pos_end - t.pos_end
        };
        if l <= r {
            l
        } else {
            r
        }
    }

    /// Aligns a data line against the established header: exactly one cell
    /// per header column, in header order, an empty cell where no token was
    /// assigned to the column. Before any header is established it returns
    /// an empty list rather than failing.
    pub fn parse_row(&self, line: &str) -> (cells: Vec<String>)
        ensures
            self@ is None ==> cells@.len() == 0,
            self@ matches Some(hdr) ==> cells@.len() == hdr.len(),
            self@ matches Some(hdr) ==> strings_view(cells@) == spec_row_cells(line@, hdr),
    {
        let header = match &self.header {
            Option::Some(h) => h,
            Option::None => {
                return Vec::new();
            },
        };
        let ghost hdr = self@.unwrap();
        if header.len() == 0 {
            proof {
                assert(strings_view(Seq::<String>::empty()) =~= spec_row_cells(line@, hdr));
            }
            return Vec::new();
        }
        let clusters = grapheme_clusters(line);
        let ghost cl = strings_view(clusters@);
        let cols = parse_line_to_columns(&clusters);
        let ghost toks = cluster_columns(cl);
        proof {
            lemma_tokens_from_wf(cl, 0, Option::<int>::None);
        }
        let mut assigned: Vec<usize> = Vec::new();
        let mut t: usize = 0;
        while t < cols.len()
            invariant
                t <= cols@.len(),
                assigned@.len() == t,
                header@.len() > 0,
                hdr == header@.map_values(|c: Column| c@),
                toks == cols@.map_values(|c: Column| c@),
                forall|k: int|
                    0 <= k < t ==> (#[trigger] assigned@[k]) < header@.len() && assigned@[k] as int
                        == assigned_column(hdr, toks[k]),
            decreases cols@.len() - t,
        {
            proof {
                assert(toks[t as int] == cols@[t as int]@);
                assert(hdr[0] == header@[0]@);
            }
            let mut best: usize = 0;
            let mut bestd: usize = Self::calc_distance(&cols[t], &header[0]);
            let mut i: usize = 1;
            while i < header.len()
                invariant
                    1 <= i <= header@.len(),
                    (best as int) < i,
                    t < cols@.len(),
                    hdr == header@.map_values(|c: Column| c@),
                    toks == cols@.map_values(|c: Column| c@),
                    bestd as int == spec_distance(toks[t as int], hdr[best as int]),
                    nearest_from(hdr, toks[t as int], i as int, best as int) == assigned_column(
                        hdr,
                        toks[t as int],
                    ),
                decreases header@.len() - i,
            {
                proof {
                    assert(hdr[i as int] == header@[i as int]@);
                }
                let d = Self::calc_distance(&cols[t], &header[i]);
                if d < bestd {
                    best = i;
                    bestd = d;
                }
                i += 1;
            }
            assigned.push(best);
            t += 1;
        }
        let mut cells: Vec<String> = Vec::new();
        let mut j: usize = 0;
        while j < header.len()
            invariant
                j <= header@.len(),
                cells@.len() == j,
                header@.len() > 0,
                hdr == header@.map_values(|c: Column| c@),
                toks == cols@.map_values(|c: Column| c@),
                cl == strings_view(clusters@),
                cl == graphemes_of(line@),
                toks == cluster_columns(cl),
                assigned@.len() == cols@.len(),
                forall|k: int|
                    0 <= k < cols@.len() ==> (#[trigger] assigned@[k]) < header@.len()
                        && assigned@[k] as int == assigned_column(hdr, toks[k]),
                forall|k: int| 0 <= k < toks.len() ==> col_wf(#[trigger] toks[k], cl.len() as int),
                forall|k: int, q: int|
                    0 <= k < q < toks.len() ==> toks[k].text_end <= toks[q].start,
                forall|q: int| 0 <= q < j ==> cells@[q]@ == spec_cell(cl, hdr, toks, q),
            decreases header@.len() - j,
        {
            let mut first: usize = 0;
            let mut last: usize = 0;
            let mut found = false;
            let mut u: usize = 0;
            while u < cols.len()
                invariant
                    u <= cols@.len(),
                    j < header@.len(),
                    assigned@.len() == cols@.len(),
                    toks == cols@.map_values(|c: Column| c@),
                    hdr == header@.map_values(|c: Column| c@),
                    forall|k: int|
                        0 <= k < cols@.len() ==> (#[trigger] assigned@[k]) < header@.len()
                            && assigned@[k] as int == assigned_column(hdr, toks[k]),
                    !found ==> spec_group(hdr, toks.take(u as int), j as int)
                        =~= Seq::<GCol>::empty(),
                    found ==> first <= last < u && spec_group(hdr, toks.take(u as int), j as int).len()
                        > 0 && spec_group(hdr, toks.take(u as int), j as int).first()
                        == toks[first as int] && spec_group(hdr, toks.take(u as int), j as int).last()
                        == toks[last as int],
                decreases cols@.len() - u,
            {
                let ghost gold = spec_group(hdr, toks.take(u as int), j as int);
                if assigned[u] == j {
                    if !found {
                        first = u;
                        found = true;
                    }
                    last = u;
                }
                proof {
                    assert(toks.take(u as int + 1).drop_last() =~= toks.take(u as int));
                    assert(toks.take(u as int + 1).last() == toks[u as int]);
                    let gnew = spec_group(hdr, toks.take(u as int + 1), j as int);
                    if assigned_column(hdr, toks[u as int]) == j as int {
                        assert(gnew =~= gold + seq![toks[u as int]]);
                    } else {
                        assert(gnew =~= gold);
                    }
                }
                u += 1;
            }
            proof {
                assert(toks.take(cols@.len() as int) =~= toks);
            }
            if found {
                proof {
                    assert(toks[first as int] == cols@[first as int]@);
                    assert(toks[last as int] == cols@[last as int]@);
                    assert(col_wf(toks[first as int], cl.len() as int));
                    assert(col_wf(toks[last as int], cl.len() as int));
                    if first < last {
                        assert(toks[first as int].text_end <= toks[last as int].start);
                    }
                }
                let s = concat_clusters(&clusters, cols[first].pos_start, cols[last].text_end);
                cells.push(s);
            } else {
                cells.push(String::new());
            }
            j += 1;
        }
        proof {
            assert(strings_view(cells@) =~= spec_row_cells(line@, hdr));
        }
        cells
    }
}

} // verus!


use itertools::Itertools;
use vstd::prelude::*;

use crate::color::{convert_color, reduce, Rgba, TermColor};
use crate::width::{cols, fit_prefix, fits, lemma_fit_prefix, push_char, str_cols, text_width, truncate_to_width};

verus! {

/// Whether a character has the Unicode White_Space property: the ASCII
/// tab, line feed, vertical tab, form feed, carriage return and space, the
/// next line and no-break space, the Ogham space mark, the spaces from en
/// quad to hair space, the line and paragraph separators, the narrow no-break
/// space, the medium mathematical space and the ideographic space.
pub open spec fn is_ws(c: char) -> bool {
    let u = c as u32;
    (0x9 <= u && u <= 0xd) || u == 0x20 || u == 0x85 || u == 0xa0 || u == 0x1680
        || (0x2000 <= u && u <= 0x200a) || u == 0x2028 || u == 0x2029 || u == 0x202f
        || u == 0x205f || u == 0x3000
}

/// Whether `c` is white space.
pub fn is_white_space(c: char) -> (r: bool)
    ensures
        r == is_ws(c),
{
    let u = c as u32;
    (0x9 <= u && u <= 0xd) || u == 0x20 || u == 0x85 || u == 0xa0 || u == 0x1680
        || (0x2000 <= u && u <= 0x200a) || u == 0x2028 || u == 0x2029 || u == 0x202f
        || u == 0x205f || u == 0x3000
}

/// The maximal runs of characters that agree on being white space, in order,
/// each with that flag.
pub open spec fn ws_runs(s: Seq<char>) -> Seq<(bool, Seq<char>)>
    decreases s.len(),
{
    if s.len() == 0 {
        Seq::empty()
    } else {
        let head = ws_runs(s.drop_last());
        let c = s.last();
        if head.len() > 0 && head.last().0 == is_ws(c) {
            head.update(head.len() - 1, (is_ws(c), head.last().1.push(c)))
        } else {
            head.push((is_ws(c), seq![c]))
        }
    }
}

pub open spec fn runs_view(r: Seq<(bool, String)>) -> Seq<(bool, Seq<char>)> {
    r.map_values(|p: (bool, String)| (p.0, p.1@))
}

/// Relies on `Itertools::group_by`: the maximal runs of characters with the
/// same key, in order, here keyed by `is_white_space`.
#[verifier::external_body]
fn whitespace_runs(s: &str) -> (r: Vec<(bool, String)>)
    ensures
        runs_view(r@) == ws_runs(s@),
        forall|i: int, k: int|
            0 <= i < r@.len() && 0 <= k < r@[i].1@.len() ==> is_ws(#[trigger] r@[i].1@[k]) == r@[i].0,
{
    let mut runs = Vec::new();
    for (ws, group) in &s.chars().group_by(|c| is_white_space(*c)) {
        runs.push((ws, group.collect()));
    }
    runs
}

/// The texts of runs, one after another.
pub open spec fn run_texts(runs: Seq<(bool, Seq<char>)>) -> Seq<char>
    decreases runs.len(),
{
    if runs.len() == 0 {
        Seq::empty()
    } else {
        run_texts(runs.drop_last()) + runs.last().1
    }
}

proof fn lemma_run_texts_update_last(runs: Seq<(bool, Seq<char>)>, flag: bool, c: char)
    requires
        runs.len() > 0,
    ensures
        run_texts(runs.update(runs.len() - 1, (flag, runs.last().1.push(c)))) == run_texts(runs).push(c),
{
    let u = runs.update(runs.len() - 1, (flag, runs.last().1.push(c)));
    assert(u.drop_last() =~= runs.drop_last());
    assert(run_texts(runs.drop_last()) + runs.last().1.push(c) =~= (run_texts(runs.drop_last())
        + runs.last().1).push(c));
}

/// Splitting a text into white-space and other runs loses nothing and
/// reorders nothing: the runs, joined, are the text.
pub proof fn lemma_runs_cover(s: Seq<char>)
    ensures
        run_texts(ws_runs(s)) == s,
    decreases s.len(),
{
    if s.len() > 0 {
        let head = ws_runs(s.drop_last());
        let c = s.last();
        lemma_runs_cover(s.drop_last());
        if head.len() > 0 && head.last().0 == is_ws(c) {
            lemma_run_texts_update_last(head, is_ws(c), c);
        } else {
            assert(head.push((is_ws(c), seq![c])).drop_last() =~= head);
            assert(run_texts(head) + seq![c] =~= run_texts(head).push(c));
        }
        assert(s.drop_last().push(c) =~= s);
    }
}

/// The glyph that stands for one column of a colored run.
pub open spec fn glyphs(n: nat) -> Seq<char> {
    Seq::new(n, |i: int| '\u{2580}')
}

/// `n` fill glyphs.
fn fill_glyphs(n: usize) -> (r: String)
    ensures
        r@ == glyphs(n as nat),
{
    let mut out = String::new();
    let mut i: usize = 0;
    while i < n
        invariant
            i <= n,
            out@ == glyphs(i as nat),
        decreases n - i,
    {
        push_char(&mut out, '\u{2580}');
        assert(out@ =~= glyphs((i + 1) as nat));
        i = i + 1;
    }
    out
}

/// A region of a line with the style the highlighter gave it.
#[derive(Clone, Debug)]
pub struct StyledRegion {
    pub style: Rgba,
    pub text: String,
}

pub open spec fn region_views(rs: Seq<StyledRegion>) -> Seq<(Rgba, Seq<char>)> {
    rs.map_values(|r: StyledRegion| (r.style, r.text@))
}

/// One piece of terminal output.
#[derive(Clone, Debug, PartialEq, Eq)]
pub enum Segment {
    /// Reset the color, then print the text.
    Plain(String),
    /// Set the foreground color, then print the glyphs.
    Fill(TermColor, String),
}

pub enum SegmentView {
    Plain(Seq<char>),
    Fill(TermColor, Seq<char>),
}

impl View for Segment {
    type V = SegmentView;

    open spec fn view(&self) -> SegmentView {
        match self {
            Segment::Plain(t) => SegmentView::Plain(t@),
            Segment::Fill(c, g) => SegmentView::Fill(*c, g@),
        }
    }
}

pub open spec fn segments_view(s: Seq<Segment>) -> Seq<SegmentView> {
    s.map_values(|x: Segment| x@)
}

/// A run of one region: its terminal color, whether it is white space, its text.
pub type Piece = (TermColor, bool, Seq<char>);

pub open spec fn tag(c: TermColor, runs: Seq<(bool, Seq<char>)>) -> Seq<Piece> {
    runs.map_values(|r: (bool, Seq<char>)| (c, r.0, r.1))
}

/// The runs of all regions of a line, in order, each with its region's color.
pub open spec fn pieces(regions: Seq<(Rgba, Seq<char>)>, true_color: bool) -> Seq<Piece>
    decreases regions.len(),
{
    if regions.len() == 0 {
        Seq::empty()
    } else {
        pieces(regions.drop_last(), true_color) + tag(
            reduce(regions.last().0, true_color),
            ws_runs(regions.last().1),
        )
    }
}

/// What has been emitted, the columns used, and whether the budget is spent.
pub type RenderState = (Seq<SegmentView>, nat, bool);

/// The columns a run may take: its width, cut to what is left of the budget.
pub open spec fn run_cols(st: RenderState, p: Piece, columns: nat) -> nat {
    let room = columns - st.1;
    if str_cols(p.2) as int <= room {
        str_cols(p.2) as nat
    } else {
        room as nat
    }
}

/// One run drawn: nothing once the budget is spent; else white space as
/// the text that fits, anything else as one glyph per column, nothing for
/// no columns; the budget is spent when the columns reach it.
pub open spec fn step(st: RenderState, p: Piece, columns: nat) -> RenderState {
    if st.2 {
        st
    } else {
        let w = run_cols(st, p, columns);
        let out = if w == 0 {
            st.0
        } else if p.1 {
            st.0.push(SegmentView::Plain(fit_prefix(p.2, w)))
        } else {
            st.0.push(SegmentView::Fill(p.0, glyphs(w)))
        };
        (out, st.1 + w, st.1 + w >= columns)
    }
}

/// The runs drawn one after another from an empty line.
pub open spec fn render(ps: Seq<Piece>, columns: nat) -> RenderState
    decreases ps.len(),
{
    if ps.len() == 0 {
        (Seq::empty(), 0, false)
    } else {
        step(render(ps.drop_last(), columns), ps.last(), columns)
    }
}

/// What a line of styled regions becomes.
pub open spec fn render_regions(regions: Seq<(Rgba, Seq<char>)>, columns: nat, true_color: bool) -> Seq<SegmentView> {
    render(pieces(regions, true_color), columns).0
}

/// Columns that the emitted output takes.
pub open spec fn seg_cols(s: SegmentView) -> nat {
    match s {
        SegmentView::Plain(t) => cols(t),
        SegmentView::Fill(_, g) => g.len(),
    }
}

pub open spec fn total_cols(s: Seq<SegmentView>) -> nat
    decreases s.len(),
{
    if s.len() == 0 {
        0
    } else {
        total_cols(s.drop_last()) + seg_cols(s.last())
    }
}

proof fn lemma_render_bounded(ps: Seq<Piece>, columns: nat)
    ensures
        render(ps, columns).1 <= columns,
        total_cols(render(ps, columns).0) <= render(ps, columns).1,
    decreases ps.len(),
{
    if ps.len() > 0 {
        lemma_render_bounded(ps.drop_last(), columns);
        let st = render(ps.drop_last(), columns);
        if !st.2 {
            let p = ps.last();
            let w = run_cols(st, p, columns);
            if w > 0 {
                let next = step(st, p, columns);
                assert(next.0.drop_last() =~= st.0);
                if p.1 {
                    lemma_fit_prefix(p.2, w);
                }
            }
        }
    }
}

/// However wide a line is, what is drawn of it takes no more columns than
/// the budget.
pub proof fn lemma_line_within_budget(regions: Seq<(Rgba, Seq<char>)>, columns: nat, true_color: bool)
    ensures
        total_cols(render_regions(regions, columns, true_color)) <= columns,
{
    lemma_render_bounded(pieces(regions, true_color), columns);
}

/// What a segment drawn from run `p` is: a fill in the run's color for a
/// run that is not white space; for a white-space run, its longest prefix
/// that fits some share `w` of the budget, `w` no more than the run's width.
pub open spec fn drawn_from(s: SegmentView, p: Piece, columns: nat) -> bool {
    match s {
        SegmentView::Fill(c, g) => c == p.0 && !p.1,
        SegmentView::Plain(t) => p.1 && exists|w: nat| fits_share(t, p.2, w, columns),
    }
}

proof fn lemma_plain_drawn(t: Seq<char>, p: Piece, w: nat, columns: nat)
    requires
        p.1,
        fits_share(t, p.2, w, columns),
    ensures
        drawn_from(SegmentView::Plain(t), p, columns),
{
    let s = SegmentView::Plain(t);
    assert(s->Plain_0 == t);
    assert(fits_share(s->Plain_0, p.2, w, columns));
}

/// `t` is the longest prefix of `text` that fits in `w` columns, and `w`
/// is no more than the budget and than the width of `text`.
pub open spec fn fits_share(t: Seq<char>, text: Seq<char>, w: nat, columns: nat) -> bool {
    &&& w <= columns
    &&& w <= str_cols(text)
    &&& cols(t) <= w
    &&& fits(text, t.len() as int, w)
    &&& t == text.take(t.len() as int)
}

proof fn lemma_render_origin(ps: Seq<Piece>, columns: nat)
    ensures
        forall|j: int|
            0 <= j < render(ps, columns).0.len() ==> exists|i: int|
                0 <= i < ps.len() && drawn_from(#[trigger] render(ps, columns).0[j], ps[i], columns),
    decreases ps.len(),
{
    if ps.len() > 0 {
        let d = ps.drop_last();
        lemma_render_origin(d, columns);
        lemma_render_bounded(d, columns);
        let st = render(d, columns);
        let out = render(ps, columns).0;
        let p = ps.last();
        assert forall|j: int| 0 <= j < out.len() implies exists|i: int|
            0 <= i < ps.len() && drawn_from(#[trigger] out[j], ps[i], columns) by {
            if j < st.0.len() {
                assert(out[j] == st.0[j]);
                let i = choose|i: int| 0 <= i < d.len() && drawn_from(st.0[j], d[i], columns);
                assert(d[i] == ps[i]);
            } else {
                let w = run_cols(st, p, columns);
                let i = ps.len() - 1;
                assert(ps[i] == p);
                assert(!st.2 && w > 0);
                assert(j == st.0.len());
                if p.1 {
                    lemma_fit_prefix(p.2, w);
                    let t = fit_prefix(p.2, w);
                    assert(out == st.0.push(SegmentView::Plain(t)));
                    assert(out[j] == SegmentView::Plain(t));
                    assert(w <= columns && w <= str_cols(p.2) && cols(t) <= w && fits(p.2, t.len() as int, w)
                        && t == p.2.take(t.len() as int));
                    lemma_plain_drawn(t, p, w, columns);
                    assert(drawn_from(out[j], ps[i], columns));
                } else {
                    assert(out == st.0.push(SegmentView::Fill(p.0, glyphs(w))));
                    assert(out[j] == SegmentView::Fill(p.0, glyphs(w)));
                    assert(drawn_from(out[j], ps[i], columns));
                }
            }
        }
    }
}

/// Each run of a line's pieces carries the terminal color of one of its
/// regions' styles.
proof fn lemma_piece_colors(rs: Seq<(Rgba, Seq<char>)>, true_color: bool)
    ensures
        forall|i: int|
            0 <= i < pieces(rs, true_color).len() ==> exists|k: int|
                0 <= k < rs.len() && (#[trigger] pieces(rs, true_color)[i]).0 == reduce(rs[k].0, true_color),
    decreases rs.len(),
{
    if rs.len() > 0 {
        let d = rs.drop_last();
        lemma_piece_colors(d, true_color);
        let head = pieces(d, true_color);
        let all = pieces(rs, true_color);
        assert forall|i: int| 0 <= i < all.len() implies exists|k: int|
            0 <= k < rs.len() && (#[trigger] all[i]).0 == reduce(rs[k].0, true_color) by {
            if i < head.len() {
                assert(all[i] == head[i]);
                let k = choose|k: int| 0 <= k < d.len() && head[i].0 == reduce(d[k].0, true_color);
                assert(d[k] == rs[k]);
            } else {
                assert(all[i].0 == reduce(rs.last().0, true_color));
                assert(rs[rs.len() - 1] == rs.last());
            }
        }
    }
}

/// Every white-space output of a line is the longest prefix of one of its
/// white-space runs that fits a share of the budget no wider than that run,
/// and takes no more columns than that share.
pub proof fn lemma_whitespace_fits(regions: Seq<(Rgba, Seq<char>)>, columns: nat, true_color: bool, j: int)
    requires
        0 <= j < render_regions(regions, columns, true_color).len(),
        render_regions(regions, columns, true_color)[j] is Plain,
    ensures
        exists|i: int, w: nat|
            0 <= i < pieces(regions, true_color).len() && pieces(regions, true_color)[i].1 && #[trigger] fits_share(
                render_regions(regions, columns, true_color)[j]->Plain_0,
                pieces(regions, true_color)[i].2,
                w,
                columns,
            ),
{
    let ps = pieces(regions, true_color);
    lemma_render_origin(ps, columns);
    let s = render(ps, columns).0[j];
    let i = choose|i: int| 0 <= i < ps.len() && drawn_from(s, ps[i], columns);
    let t = s->Plain_0;
    let w = choose|w: nat| fits_share(t, ps[i].2, w, columns);
    assert(0 <= i < ps.len() && ps[i].1 && fits_share(t, ps[i].2, w, columns));
}

/// With 24-bit output, a style of alpha zero never gives an RGB color: every
/// fill is in the terminal default or in the exact color of a region whose
/// alpha is not zero.
pub proof fn lemma_hidden_styles_reset(regions: Seq<(Rgba, Seq<char>)>, columns: nat, j: int)
    requires
        0 <= j < render_regions(regions, columns, true).len(),
        render_regions(regions, columns, true)[j] is Fill,
    ensures
        render_regions(regions, columns, true)[j]->Fill_0 == TermColor::Reset || exists|k: int|
            0 <= k < regions.len() && regions[k].0.a != 0 && render_regions(regions, columns, true)[j]->Fill_0
                == (TermColor::Rgb { r: regions[k].0.r, g: regions[k].0.g, b: regions[k].0.b }),
{
    let ps = pieces(regions, true);
    lemma_render_origin(ps, columns);
    lemma_piece_colors(regions, true);
    let s = render(ps, columns).0[j];
    let i = choose|i: int| 0 <= i < ps.len() && drawn_from(s, ps[i], columns);
    let k = choose|k: int| 0 <= k < regions.len() && ps[i].0 == reduce(regions[k].0, true);
    if regions[k].0.a != 0 {
        assert(s->Fill_0 == (TermColor::Rgb { r: regions[k].0.r, g: regions[k].0.g, b: regions[k].0.b }));
    }
}

/// The widths of runs, added up.
pub open spec fn runs_width(ps: Seq<Piece>) -> nat
    decreases ps.len(),
{
    if ps.len() == 0 {
        0
    } else {
        runs_width(ps.drop_last()) + str_cols(ps.last().2) as nat
    }
}

proof fn lemma_render_uses(ps: Seq<Piece>, columns: nat)
    ensures
        render(ps, columns).1 == (if runs_width(ps) <= columns { runs_width(ps) } else { columns }),
        render(ps, columns).2 ==> render(ps, columns).1 == columns,
        (forall|i: int| 0 <= i < ps.len() ==> !(#[trigger] ps[i]).1) ==> total_cols(render(ps, columns).0)
            == render(ps, columns).1,
    decreases ps.len(),
{
    if ps.len() > 0 {
        let d = ps.drop_last();
        lemma_render_uses(d, columns);
        if forall|i: int| 0 <= i < ps.len() ==> !(#[trigger] ps[i]).1 {
            assert forall|i: int| 0 <= i < d.len() implies !(#[trigger] d[i]).1 by {
                assert(d[i] == ps[i]);
            }
            assert(!ps[ps.len() - 1].1);
            let st = render(d, columns);
            let w = run_cols(st, ps.last(), columns);
            if !st.2 && w > 0 {
                assert(render(ps, columns).0.drop_last() =~= st.0);
            }
        }
    }
}

/// The columns drawn of a line are the lesser of its runs' widths added up
/// and the budget; where no run is white space, exactly that many glyphs
/// are drawn, so a line wider than the budget fills it exactly.
pub proof fn lemma_line_fills_budget(regions: Seq<(Rgba, Seq<char>)>, columns: nat, true_color: bool)
    ensures
        render(pieces(regions, true_color), columns).1 == (if runs_width(pieces(regions, true_color)) <= columns {
            runs_width(pieces(regions, true_color))
        } else {
            columns
        }),
        (forall|i: int| 0 <= i < pieces(regions, true_color).len() ==> !(#[trigger] pieces(regions, true_color)[i]).1)
            ==> total_cols(render_regions(regions, columns, true_color)) == render(pieces(regions, true_color), columns).1,
{
    lemma_render_uses(pieces(regions, true_color), columns);
}

/// Once the budget is spent, the runs that follow change nothing.
proof fn lemma_spent_stays(ps: Seq<Piece>, q: int, columns: nat)
    requires
        0 <= q <= ps.len(),
        render(ps.take(q), columns).2,
    ensures
        render(ps, columns) == render(ps.take(q), columns),
    decreases ps.len(),
{
    if q == ps.len() {
        assert(ps.take(q) =~= ps);
    } else {
        assert(ps.drop_last().take(q) =~= ps.take(q));
        lemma_spent_stays(ps.drop_last(), q, columns);
    }
}

/// The runs of the first regions come first among the runs of all.
proof fn lemma_pieces_prefix(rs: Seq<(Rgba, Seq<char>)>, k: int, true_color: bool)
    requires
        0 <= k <= rs.len(),
    ensures
        pieces(rs.take(k), true_color).len() <= pieces(rs, true_color).len(),
        pieces(rs.take(k), true_color) == pieces(rs, true_color).take(
            pieces(rs.take(k), true_color).len() as int,
        ),
    decreases rs.len(),
{
    if k == rs.len() {
        assert(rs.take(k) =~= rs);
        assert(pieces(rs, true_color).take(pieces(rs, true_color).len() as int) =~= pieces(rs, true_color));
    } else {
        let d = rs.drop_last();
        assert(d.take(k) =~= rs.take(k));
        lemma_pieces_prefix(d, k, true_color);
        let a = pieces(d, true_color);
        let l = pieces(rs.take(k), true_color).len() as int;
        assert((a + tag(reduce(rs.last().0, true_color), ws_runs(rs.last().1))).take(l) =~= a.take(l));
    }
}

/// Draws a line of styled regions within `columns` columns: white space
/// as itself, every other run as fill glyphs in its region's color.
pub fn draw_regions(regions: &Vec<StyledRegion>, columns: usize, true_color: bool) -> (r: Vec<Segment>)
    ensures
        segments_view(r@) == render_regions(region_views(regions@), columns as nat, true_color),
{
    let mut out: Vec<Segment> = Vec::new();
    let mut printed: usize = 0;
    let ghost rv = region_views(regions@);
    let ghost all = pieces(rv, true_color);
    let mut i: usize = 0;
    proof {
        assert(rv.take(0) =~= Seq::<(Rgba, Seq<char>)>::empty());
        assert(segments_view(out@) =~= Seq::<SegmentView>::empty());
    }
    while i < regions.len()
        invariant
            rv == region_views(regions@),
            all == pieces(rv, true_color),
            0 <= i <= regions.len(),
            printed <= columns,
            segments_view(out@) == render(pieces(rv.take(i as int), true_color), columns as nat).0,
            printed == render(pieces(rv.take(i as int), true_color), columns as nat).1,
            !render(pieces(rv.take(i as int), true_color), columns as nat).2,
        decreases regions.len() - i,
    {
        let color = convert_color(&regions[i].style, true_color);
        let runs = whitespace_runs(regions[i].text.as_str());
        let ghost base = pieces(rv.take(i as int), true_color);
        let ghost tagged = tag(color, ws_runs(regions@[i as int].text@));
        proof {
            assert(rv.take(i + 1).drop_last() =~= rv.take(i as int));
            assert(pieces(rv.take(i + 1), true_color) == base + tagged);
            lemma_pieces_prefix(rv, i + 1, true_color);
            assert(tagged.take(0) =~= Seq::<Piece>::empty());
            assert(base + tagged.take(0) =~= base);
        }
        let mut j: usize = 0;
        while j < runs.len()
            invariant
                rv == region_views(regions@),
                all == pieces(rv, true_color),
                0 <= i < regions.len(),
                0 <= j <= runs.len(),
                tagged == tag(color, runs_view(runs@)),
                base == pieces(rv.take(i as int), true_color),
                pieces(rv.take(i + 1), true_color) == base + tagged,
                base + tagged == all.take((base + tagged).len() as int),
                (base + tagged).len() <= all.len(),
                tagged.len() == runs@.len(),
                printed <= columns,
                segments_view(out@) == render(base + tagged.take(j as int), columns as nat).0,
                printed == render(base + tagged.take(j as int), columns as nat).1,
                !render(base + tagged.take(j as int), columns as nat).2,
            decreases runs.len() - j,
        {
            let ws: bool = runs[j].0;
            let text: &String = &runs[j].1;
            let total: usize = text_width(text.as_str());
            let room: usize = columns - printed;
            let w: usize = if total <= room { total } else { room };
            let ghost prev = base + tagged.take(j as int);
            let ghost now = base + tagged.take(j + 1);
            proof {
                assert(now.drop_last() =~= prev);
                assert(now.last() == (color, ws, text@));
            }
            if w > 0 {
                if ws {
                    let t = truncate_to_width(text.as_str(), w);
                    out.push(Segment::Plain(t));
                } else {
                    let g = fill_glyphs(w);
                    out.push(Segment::Fill(color, g));
                }
                proof {
                    assert(segments_view(out@) =~= render(now, columns as nat).0);
                }
            }
            if printed + w >= columns {
                proof {
                    let l = (base + tagged).len() as int;
                    assert(now =~= (base + tagged).take(now.len() as int));
                    assert(all.take(l).take(now.len() as int) =~= all.take(now.len() as int));
                    assert(now =~= all.take(now.len() as int));
                    lemma_spent_stays(all, now.len() as int, columns as nat);
                }
                return out;
            }
            printed = printed + w;
            j = j + 1;
        }
        proof {
            assert(tagged.take(j as int) =~= tagged);
        }
        i = i + 1;
    }
    proof {
        assert(rv.take(i as int) =~= rv);
    }
    out
}

} // verus!

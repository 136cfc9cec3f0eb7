//! Pure rendering: turn fetched results into styled lines. The same output
//! drives both the one-shot snapshot and the live watch view.

use vstd::prelude::*;

use crate::model::{results_view, Badge, Dot, RepoResult, RepoView, RowView, WorkflowRow};
use crate::text::{chars_of, dec, push_char, push_dec, slice_chars, string_of};

verus! {

// ── styled text ──────────────────────────────────────────────────

/// The colors the dashboard uses.
#[derive(Clone, Copy, Debug, PartialEq, Eq, Structural)]
pub enum Color {
    Red,
    Green,
    Yellow,
    Cyan,
    White,
    DarkGray,
}

/// How a span is drawn.
#[derive(Clone, Copy, Debug, PartialEq, Eq, Structural)]
pub struct Style {
    pub fg: Option<Color>,
    pub bold: bool,
    pub dim: bool,
}

/// A run of text in one style.
pub struct Span {
    pub content: String,
    pub style: Style,
}

/// One line of output.
pub struct Line {
    pub spans: Vec<Span>,
}

/// A span with its text taken as characters.
pub struct SpanView {
    pub text: Seq<char>,
    pub style: Style,
}

impl View for Span {
    type V = SpanView;

    open spec fn view(&self) -> SpanView {
        SpanView { text: self.content@, style: self.style }
    }
}

/// The spans of a sequence, as views.
pub open spec fn spans_view(v: Seq<Span>) -> Seq<SpanView> {
    v.map_values(|s: Span| s@)
}

impl View for Line {
    type V = Seq<SpanView>;

    open spec fn view(&self) -> Seq<SpanView> {
        spans_view(self.spans@)
    }
}

/// The lines of a sequence, as views.
pub open spec fn lines_view(v: Seq<Line>) -> Seq<Seq<SpanView>> {
    v.map_values(|l: Line| l@)
}

/// No color and no modifier.
pub open spec fn raw_style() -> Style {
    Style { fg: None, bold: false, dim: false }
}

/// A foreground color.
pub open spec fn fg(c: Color) -> Style {
    Style { fg: Some(c), bold: false, dim: false }
}

/// A bold foreground color.
pub open spec fn bold(c: Color) -> Style {
    Style { fg: Some(c), bold: true, dim: false }
}

/// The muted style of separators and secondary text.
pub open spec fn dim() -> Style {
    fg(Color::DarkGray)
}

pub fn raw_style_exec() -> (s: Style)
    ensures
        s == raw_style(),
{
    Style { fg: None, bold: false, dim: false }
}

pub fn fg_exec(c: Color) -> (s: Style)
    ensures
        s == fg(c),
{
    Style { fg: Some(c), bold: false, dim: false }
}

pub fn bold_exec(c: Color) -> (s: Style)
    ensures
        s == bold(c),
{
    Style { fg: Some(c), bold: true, dim: false }
}

pub fn dim_exec() -> (s: Style)
    ensures
        s == dim(),
{
    fg_exec(Color::DarkGray)
}

/// A span of `text` in `style`.
pub open spec fn sv(text: Seq<char>, style: Style) -> SpanView {
    SpanView { text, style }
}

fn span_of(text: &str, style: Style) -> (s: Span)
    ensures
        s@ == sv(text@, style),
{
    Span { content: String::from_str(text), style }
}

/// A blank line: a single empty, unstyled span, which shows as nothing.
pub open spec fn empty_line() -> Seq<SpanView> {
    seq![sv(Seq::empty(), raw_style())]
}

fn empty_line_exec() -> (l: Line)
    ensures
        l@ == empty_line(),
{
    let mut spans: Vec<Span> = Vec::new();
    spans.push(Span { content: String::new(), style: raw_style_exec() });
    assert(spans_view(spans@) =~= empty_line());
    Line { spans }
}

fn push_span(v: &mut Vec<Span>, s: Span)
    ensures
        spans_view(final(v)@) == spans_view(old(v)@).push(s@),
{
    v.push(s);
    assert(spans_view(v@) =~= spans_view(old(v)@).push(s@));
}

fn append_spans(v: &mut Vec<Span>, w: Vec<Span>)
    ensures
        spans_view(final(v)@) == spans_view(old(v)@) + spans_view(w@),
{
    let mut w = w;
    let ghost wv = spans_view(w@);
    let ghost start = spans_view(v@);
    v.append(&mut w);
    assert(spans_view(v@) =~= start + wv);
}

fn push_line(v: &mut Vec<Line>, l: Line)
    ensures
        lines_view(final(v)@) == lines_view(old(v)@).push(l@),
{
    v.push(l);
    assert(lines_view(v@) =~= lines_view(old(v)@).push(l@));
}

// ── column widths ────────────────────────────────────────────────

pub const W_STATUS: usize = 9;
pub const W_STARTED: usize = 14;
pub const W_FINISHED: usize = 14;
pub const W_DURATION: usize = 9;
pub const W_ETA: usize = 9;
pub const W_RECENT: usize = 13;
pub const W_FAILSINCE: usize = 11;

/// The widths of the eight columns, the first one `name_w` wide.
pub open spec fn widths_of(name_w: nat) -> Seq<nat> {
    seq![
        name_w,
        W_STATUS as nat,
        W_STARTED as nat,
        W_FINISHED as nat,
        W_DURATION as nat,
        W_ETA as nat,
        W_RECENT as nat,
        W_FAILSINCE as nat,
    ]
}

/// The widths of the eight columns, the first one `name_w` wide.
pub fn column_widths(name_w: usize) -> (w: Vec<usize>)
    ensures
        w@.map_values(|x: usize| x as nat) == widths_of(name_w as nat),
        w.len() == 8,
        w@ == seq![name_w, W_STATUS, W_STARTED, W_FINISHED, W_DURATION, W_ETA, W_RECENT, W_FAILSINCE],
{
    let w = vec![name_w, W_STATUS, W_STARTED, W_FINISHED, W_DURATION, W_ETA, W_RECENT, W_FAILSINCE];
    assert(w@.map_values(|x: usize| x as nat) =~= widths_of(name_w as nat));
    assert(w@ =~= seq![name_w, W_STATUS, W_STARTED, W_FINISHED, W_DURATION, W_ETA, W_RECENT, W_FAILSINCE]);
    w
}

// ── text shaping ─────────────────────────────────────────────────

/// Em and en dashes become `-`.
pub open spec fn sanitize_char(c: char) -> char {
    if c == '—' || c == '–' {
        '-'
    } else {
        c
    }
}

/// `s` with em and en dashes replaced by `-`.
pub open spec fn sanitized(s: Seq<char>) -> Seq<char> {
    s.map_values(|c: char| sanitize_char(c))
}

/// `s` sanitized and cut to at most `w` characters, ending in `…` when cut.
pub open spec fn truncated(s: Seq<char>, w: nat) -> Seq<char> {
    let t = sanitized(s);
    if t.len() <= w {
        t
    } else if w == 0 {
        Seq::empty()
    } else {
        t.take(w - 1).push('…')
    }
}

/// The characters of `s` with em and en dashes replaced by `-`.
fn sanitize_chars(s: &Vec<char>) -> (r: Vec<char>)
    ensures
        r@ == sanitized(s@),
{
    let mut r: Vec<char> = Vec::new();
    for i in 0..s.len()
        invariant
            r@ == sanitized(s@.take(i as int)),
    {
        let c = s[i];
        r.push(if c == '—' || c == '–' { '-' } else { c });
        assert(sanitized(s@.take(i + 1)) =~= sanitized(s@.take(i as int)).push(sanitize_char(c)));
    }
    assert(s@.take(s.len() as int) =~= s@);
    r
}

/// `s` sanitized and cut to at most `w` characters.
fn truncate_chars(s: &str, w: usize) -> (r: Vec<char>)
    ensures
        r@ == truncated(s@, w as nat),
{
    let t = sanitize_chars(&chars_of(s));
    if t.len() <= w {
        t
    } else if w == 0 {
        Vec::new()
    } else {
        let mut r = slice_chars(&t, 0, w - 1);
        assert(r@ =~= t@.take(w - 1));
        r.push('…');
        r
    }
}

/// `s` with em and en dashes replaced by `-`.
pub fn sanitize(s: &str) -> (r: String)
    ensures
        r@ == sanitized(s@),
{
    string_of(&sanitize_chars(&chars_of(s)))
}

/// `s` sanitized and cut to at most `w` characters, ending in `…` when cut.
pub fn truncate(s: &str, w: usize) -> (r: String)
    ensures
        r@ == truncated(s@, w as nat),
{
    string_of(&truncate_chars(s, w))
}

/// A cut text never exceeds its width, and is left alone when it fits.
pub proof fn law_truncate_fits(s: Seq<char>, w: nat)
    ensures
        truncated(s, w).len() <= w || truncated(s, w) == sanitized(s),
        truncated(s, w).len() <= w,
        s.len() <= w ==> truncated(s, w) == sanitized(s),
{
}

// ── durations ────────────────────────────────────────────────────

/// A duration as `42s`, `3m 10s` or `2h 5m`; negative durations show as `0s`.
pub open spec fn duration_text(secs: int) -> Seq<char> {
    let s = if secs > 0 {
        secs
    } else {
        0
    };
    if s < 60 {
        dec(s as nat) + "s"@
    } else if s < 3600 {
        dec((s / 60) as nat) + "m "@ + dec((s % 60) as nat) + "s"@
    } else {
        dec((s / 3600) as nat) + "h "@ + dec(((s % 3600) / 60) as nat) + "m"@
    }
}

/// A duration as `42s`, `3m 10s` or `2h 5m`.
fn fmt_duration_wide(secs: i128) -> (r: String)
    ensures
        r@ == duration_text(secs as int),
{
    let s: i128 = if secs > 0 {
        secs
    } else {
        0
    };
    let mut r = String::new();
    if s < 60 {
        push_dec(&mut r, s as u128);
        r.append("s");
    } else if s < 3600 {
        push_dec(&mut r, (s / 60) as u128);
        r.append("m ");
        push_dec(&mut r, (s % 60) as u128);
        r.append("s");
    } else {
        push_dec(&mut r, (s / 3600) as u128);
        r.append("h ");
        push_dec(&mut r, ((s % 3600) / 60) as u128);
        r.append("m");
    }
    r
}

/// A duration as `42s`, `3m 10s` or `2h 5m`; negative durations show as `0s`.
pub fn fmt_duration(secs: i64) -> (r: String)
    ensures
        r@ == duration_text(secs as int),
{
    fmt_duration_wide(secs as i128)
}

// ── cells and rows ───────────────────────────────────────────────

/// A table cell: its spans and how many columns its content takes.
pub struct Cell {
    pub spans: Vec<Span>,
    pub width: usize,
}

/// A cell with its spans taken as views.
pub type CellView = (Seq<SpanView>, nat);

impl View for Cell {
    type V = CellView;

    open spec fn view(&self) -> CellView {
        (spans_view(self.spans@), self.width as nat)
    }
}

/// The cells of a sequence, as views.
pub open spec fn cells_view(v: Seq<Cell>) -> Seq<CellView> {
    v.map_values(|c: Cell| c@)
}

/// A single-span cell cut to `w` columns.
pub open spec fn text_cell_w(s: Seq<char>, w: nat, style: Style) -> CellView {
    let t = truncated(s, w);
    (seq![sv(t, style)], t.len())
}

/// A single-span cell, hard-capped so it can never overflow a column.
pub open spec fn text_cell(s: Seq<char>, style: Style) -> CellView {
    text_cell_w(s, 64, style)
}

/// A single-span cell cut to `w` columns.
pub fn text_cell_w_exec(s: &str, w: usize, style: Style) -> (c: Cell)
    ensures
        c@ == text_cell_w(s@, w as nat, style),
{
    let t = truncate_chars(s, w);
    let n = t.len();
    let mut spans: Vec<Span> = Vec::new();
    push_span(&mut spans, Span { content: string_of(&t), style });
    Cell { spans, width: n }
}

/// A single-span cell capped at 64 columns.
pub fn text_cell_exec(s: &str, style: Style) -> (c: Cell)
    ensures
        c@ == text_cell(s@, style),
{
    text_cell_w_exec(s, 64, style)
}

/// `n` spaces.
pub open spec fn spaces(n: nat) -> Seq<char> {
    Seq::new(n, |i: int| ' ')
}

/// `n` horizontal box-drawing characters.
pub open spec fn dashes(n: nat) -> Seq<char> {
    Seq::new(n, |i: int| '─')
}

fn push_repeat(s: &mut String, c: char, n: usize)
    ensures
        final(s)@ == old(s)@ + Seq::new(n as nat, |i: int| c),
{
    let ghost start = s@;
    for i in 0..n
        invariant
            s@ == start + Seq::new(i as nat, |j: int| c),
    {
        push_char(s, c);
        assert(s@ =~= start + Seq::new((i + 1) as nat, |j: int| c));
    }
}

/// The spans one cell adds to a row: its content, padding up to the column
/// width, and the separator after it.
pub open spec fn cell_spans(cell: CellView, w: nat, last: bool) -> Seq<SpanView> {
    let cw = if cell.1 < w {
        cell.1
    } else {
        w
    };
    cell.0 + (if w > cw {
        seq![sv(spaces((w - cw) as nat), raw_style())]
    } else {
        Seq::empty()
    }) + seq![sv(if last { " │"@ } else { " │ "@ }, dim())]
}

/// The spans of a row holding the first `k` of `cells`.
pub open spec fn row_spans(cells: Seq<CellView>, widths: Seq<nat>, k: nat) -> Seq<SpanView>
    decreases k,
{
    if k == 0 {
        seq![sv("│ "@, dim())]
    } else {
        row_spans(cells, widths, (k - 1) as nat) + cell_spans(
            cells[k - 1],
            widths[k - 1],
            k == cells.len(),
        )
    }
}

/// A full table row: every cell padded to its column width.
pub open spec fn row_line(cells: Seq<CellView>, widths: Seq<nat>) -> Seq<SpanView> {
    row_spans(cells, widths, cells.len())
}

/// Assemble a full table row from cells, padding each to its column width.
pub fn row_line_exec(cells: Vec<Cell>, widths: &Vec<usize>) -> (l: Line)
    requires
        cells.len() <= widths.len(),
    ensures
        l@ == row_line(cells_view(cells@), widths@.map_values(|x: usize| x as nat)),
{
    let ghost all = cells_view(cells@);
    let ghost ws = widths@.map_values(|x: usize| x as nat);
    let n = cells.len();
    let mut cells = cells;
    let mut spans: Vec<Span> = Vec::new();
    push_span(&mut spans, span_of("│ ", dim_exec()));
    assert(spans_view(spans@) =~= row_spans(all, ws, 0));
    let mut i: usize = 0;
    while i < n
        invariant
            n == all.len(),
            n <= widths.len(),
            ws == widths@.map_values(|x: usize| x as nat),
            i <= n,
            cells_view(cells@) == all.skip(i as int),
            spans_view(spans@) == row_spans(all, ws, i as nat),
        decreases n - i,
    {
        let ghost oc = cells@;
        assert(cells_view(oc).len() == oc.len());
        assert(cells_view(oc)[0] == all[i as int]);
        let c = cells.remove(0);
        assert(cells@ =~= oc.subrange(1, oc.len() as int));
        assert forall|j: int| 0 <= j < cells@.len() implies cells_view(cells@)[j] == all.skip(
            i + 1,
        )[j] by {
            assert(cells@[j] == oc[j + 1]);
            assert(cells_view(oc)[j + 1] == all.skip(i as int)[j + 1]);
        }
        assert(cells_view(cells@) =~= all.skip(i + 1));
        let w = widths[i];
        let cw = if c.width < w {
            c.width
        } else {
            w
        };
        let ghost before = spans_view(spans@);
        append_spans(&mut spans, c.spans);
        if w > cw {
            let mut pad = String::new();
            push_repeat(&mut pad, ' ', w - cw);
            push_span(&mut spans, Span { content: pad, style: raw_style_exec() });
        }
        let sep = if i + 1 < n {
            " │ "
        } else {
            " │"
        };
        push_span(&mut spans, span_of(sep, dim_exec()));
        assert(spans_view(spans@) =~= before + cell_spans(all[i as int], ws[i as int], i + 1 == n));
        i = i + 1;
    }
    Line { spans }
}

/// The text of a border: corners `l` and `r`, `m` between columns, each
/// column `w + 2` dashes wide.
pub open spec fn border_text(widths: Seq<nat>, l: char, m: char, r: char) -> Seq<char> {
    seq![l] + border_inner(widths, m) + seq![r]
}

/// The dashes and junctions between a border's corners.
pub open spec fn border_inner(widths: Seq<nat>, m: char) -> Seq<char>
    decreases widths.len(),
{
    if widths.len() == 0 {
        Seq::empty()
    } else {
        border_inner(widths.drop_last(), m) + (if widths.len() > 1 {
            seq![m]
        } else {
            Seq::empty()
        }) + dashes(widths.last() + 2)
    }
}

/// A border line of a table.
pub open spec fn border(widths: Seq<nat>, l: char, m: char, r: char) -> Seq<SpanView> {
    seq![sv(border_text(widths, l, m, r), dim())]
}

/// A border line of a table.
pub fn border_exec(widths: &Vec<usize>, l: char, m: char, r: char) -> (line: Line)
    requires
        forall|i: int| 0 <= i < widths.len() ==> widths@[i] <= usize::MAX - 2,
    ensures
        line@ == border(widths@.map_values(|x: usize| x as nat), l, m, r),
{
    let ghost ws = widths@.map_values(|x: usize| x as nat);
    let mut s = String::new();
    push_char(&mut s, l);
    for i in 0..widths.len()
        invariant
            forall|i: int| 0 <= i < widths.len() ==> widths@[i] <= usize::MAX - 2,
            ws == widths@.map_values(|x: usize| x as nat),
            s@ == seq![l] + border_inner(ws.take(i as int), m),
    {
        let ghost before = s@;
        if i > 0 {
            push_char(&mut s, m);
        }
        push_repeat(&mut s, '─', widths[i] + 2);
        assert(ws.take(i + 1).drop_last() =~= ws.take(i as int));
        assert(s@ =~= seq![l] + border_inner(ws.take(i + 1), m));
    }
    assert(ws.take(widths.len() as int) =~= ws);
    push_char(&mut s, r);
    assert(s@ =~= border_text(ws, l, m, r));
    let mut spans: Vec<Span> = Vec::new();
    push_span(&mut spans, Span { content: s, style: dim_exec() });
    assert(spans_view(spans@) =~= border(ws, l, m, r));
    Line { spans }
}

/// The column titles, the first one `first`.
pub open spec fn titles(first: Seq<char>) -> Seq<Seq<char>> {
    seq![
        first,
        "Status"@,
        "Started"@,
        "Finished"@,
        "Duration"@,
        "ETA"@,
        "Recent"@,
        "FailSince"@,
    ]
}

/// The title row of a table.
pub open spec fn header_row(name_w: nat, first: Seq<char>) -> Seq<SpanView> {
    row_line(
        Seq::new(8, |i: int| text_cell_w(titles(first)[i], widths_of(name_w)[i], bold(Color::White))),
        widths_of(name_w),
    )
}

fn push_cell(cells: &mut Vec<Cell>, c: Cell)
    ensures
        cells_view(final(cells)@) == cells_view(old(cells)@).push(c@),
{
    cells.push(c);
    assert(cells_view(cells@) =~= cells_view(old(cells)@).push(c@));
}

/// The title row of a table.
pub fn header_row_exec(name_w: usize, first: &str) -> (l: Line)
    ensures
        l@ == header_row(name_w as nat, first@),
{
    let widths = column_widths(name_w);
    let st = bold_exec(Color::White);
    let mut cells: Vec<Cell> = Vec::new();
    push_cell(&mut cells, text_cell_w_exec(first, name_w, st));
    push_cell(&mut cells, text_cell_w_exec("Status", W_STATUS, st));
    push_cell(&mut cells, text_cell_w_exec("Started", W_STARTED, st));
    push_cell(&mut cells, text_cell_w_exec("Finished", W_FINISHED, st));
    push_cell(&mut cells, text_cell_w_exec("Duration", W_DURATION, st));
    push_cell(&mut cells, text_cell_w_exec("ETA", W_ETA, st));
    push_cell(&mut cells, text_cell_w_exec("Recent", W_RECENT, st));
    push_cell(&mut cells, text_cell_w_exec("FailSince", W_FAILSINCE, st));
    assert(cells_view(cells@) =~= Seq::new(
        8,
        |i: int| text_cell_w(titles(first@)[i], widths_of(name_w as nat)[i], bold(Color::White)),
    ));
    row_line_exec(cells, &widths)
}

// ── alignment ────────────────────────────────────────────────────

/// The text of a line: its spans' texts, in order.
pub open spec fn line_text(spans: Seq<SpanView>) -> Seq<char>
    decreases spans.len(),
{
    if spans.len() == 0 {
        Seq::empty()
    } else {
        line_text(spans.drop_last()) + spans.last().text
    }
}

/// The sum of the widths.
pub open spec fn total(ws: Seq<nat>) -> nat
    decreases ws.len(),
{
    if ws.len() == 0 {
        0
    } else {
        total(ws.drop_last()) + ws.last()
    }
}

/// A cell fits its column: its text is as long as its width, and no wider than the column.
pub open spec fn cell_fits(c: CellView, w: nat) -> bool {
    line_text(c.0).len() == c.1 && c.1 <= w
}

proof fn lemma_line_text_single(x: SpanView)
    ensures
        line_text(seq![x]) == x.text,
{
    let e = Seq::<SpanView>::empty();
    assert(seq![x].drop_last() =~= e);
    assert(line_text(e) == Seq::<char>::empty());
    assert(Seq::<char>::empty() + x.text =~= x.text);
}

proof fn lemma_line_text_append(a: Seq<SpanView>, b: Seq<SpanView>)
    ensures
        line_text(a + b) == line_text(a) + line_text(b),
    decreases b.len(),
{
    if b.len() == 0 {
        assert(a + b =~= a);
    } else {
        lemma_line_text_append(a, b.drop_last());
        assert((a + b).drop_last() =~= a + b.drop_last());
    }
}

proof fn lemma_row_spans_len(cells: Seq<CellView>, widths: Seq<nat>, k: nat)
    requires
        k <= cells.len(),
        cells.len() <= widths.len(),
        forall|i: int| 0 <= i < cells.len() ==> #[trigger] cell_fits(cells[i], widths[i]),
    ensures
        line_text(row_spans(cells, widths, k)).len() + (if k > 0 && k == cells.len() {
            1int
        } else {
            0int
        }) == 2 + total(widths.take(k as int)) + 3 * k,
    decreases k,
{
    reveal_strlit("│ ");
    reveal_strlit(" │");
    reveal_strlit(" │ ");
    if k == 0 {
        assert(widths.take(0) =~= Seq::<nat>::empty());
        lemma_line_text_single(sv("│ "@, dim()));
    } else {
        lemma_row_spans_len(cells, widths, (k - 1) as nat);
        let c = cells[k - 1];
        let w = widths[k - 1];
        assert(cell_fits(c, w));
        let pad = if w > c.1 {
            seq![sv(spaces((w - c.1) as nat), raw_style())]
        } else {
            Seq::empty()
        };
        let sep = seq![sv(if k == cells.len() { " │"@ } else { " │ "@ }, dim())];
        lemma_line_text_append(row_spans(cells, widths, (k - 1) as nat), c.0 + pad + sep);
        lemma_line_text_append(c.0 + pad, sep);
        lemma_line_text_append(c.0, pad);
        lemma_line_text_single(sep[0]);
        if w > c.1 {
            lemma_line_text_single(pad[0]);
        } else {
            assert(line_text(pad) == Seq::<char>::empty());
        }
        assert(line_text(pad).len() == w - c.1);
        assert(widths.take(k as int).drop_last() =~= widths.take(k - 1));
    }
}

proof fn lemma_border_inner_len(ws: Seq<nat>, m: char)
    ensures
        border_inner(ws, m).len() + (if ws.len() > 0 {
            1int
        } else {
            0int
        }) == total(ws) + 3 * ws.len(),
    decreases ws.len(),
{
    if ws.len() > 0 {
        lemma_border_inner_len(ws.drop_last(), m);
    }
}

/// The columns line up: a row whose cells fit their columns is exactly as
/// wide as the table's borders, which are the sum of the column widths plus
/// three characters per column and one more.
pub proof fn law_rows_align_with_borders(cells: Seq<CellView>, widths: Seq<nat>, l: char, m: char, r: char)
    requires
        cells.len() == widths.len(),
        forall|i: int| 0 <= i < cells.len() ==> #[trigger] cell_fits(cells[i], widths[i]),
    ensures
        line_text(row_line(cells, widths)).len() == line_text(border(widths, l, m, r)).len(),
        line_text(border(widths, l, m, r)) == border_text(widths, l, m, r),
        widths.len() > 0 ==> line_text(border(widths, l, m, r)).len() == total(widths) + 3
            * widths.len() + 1,
{
    lemma_row_spans_len(cells, widths, cells.len());
    lemma_border_inner_len(widths, m);
    assert(widths.take(widths.len() as int) =~= widths);
    lemma_line_text_single(sv(border_text(widths, l, m, r), dim()));
}

/// A title row is as wide as the borders of its table.
pub proof fn law_header_aligns(name_w: nat, first: Seq<char>, l: char, m: char, r: char)
    ensures
        line_text(header_row(name_w, first)).len() == line_text(border(widths_of(name_w), l, m, r)).len(),
{
    let ws = widths_of(name_w);
    let cells = Seq::new(8, |i: int| text_cell_w(titles(first)[i], ws[i], bold(Color::White)));
    assert forall|i: int| 0 <= i < cells.len() implies #[trigger] cell_fits(cells[i], ws[i]) by {
        let t = truncated(titles(first)[i], ws[i]);
        law_truncate_fits(titles(first)[i], ws[i]);
        lemma_line_text_single(sv(t, bold(Color::White)));
    }
    law_rows_align_with_borders(cells, ws, l, m, r);
}

/// The style of a status badge.
pub open spec fn badge_style(b: Badge) -> Style {
    match b {
        Badge::Pass => fg(Color::Green),
        Badge::Fail => bold(Color::Red),
        Badge::Running => fg(Color::Yellow),
        Badge::Queued | Badge::Pending => fg(Color::Yellow),
        _ => dim(),
    }
}

fn badge_style_exec(b: Badge) -> (s: Style)
    ensures
        s == badge_style(b),
{
    match b {
        Badge::Pass => fg_exec(Color::Green),
        Badge::Fail => bold_exec(Color::Red),
        Badge::Running => fg_exec(Color::Yellow),
        Badge::Queued | Badge::Pending => fg_exec(Color::Yellow),
        _ => dim_exec(),
    }
}

/// The spinner frames.
pub open spec fn spinner_frames() -> Seq<char> {
    seq!['⠋', '⠙', '⠹', '⠸', '⠼', '⠴', '⠦', '⠧', '⠇', '⠏']
}

/// The spinner frame for tick `i`.
pub open spec fn spinner_char(i: nat) -> char {
    spinner_frames()[(i % 10) as int]
}

/// The spinner frame for tick `i`.
pub fn spinner_frame(i: usize) -> (c: char)
    ensures
        c == spinner_char(i as nat),
{
    let k = i % 10;
    if k == 0 {
        '⠋'
    } else if k == 1 {
        '⠙'
    } else if k == 2 {
        '⠹'
    } else if k == 3 {
        '⠸'
    } else if k == 4 {
        '⠼'
    } else if k == 5 {
        '⠴'
    } else if k == 6 {
        '⠦'
    } else if k == 7 {
        '⠧'
    } else if k == 8 {
        '⠇'
    } else {
        '⠏'
    }
}

/// The status text: the badge label, after a spinner frame while the run is active.
pub open spec fn status_text(row: RowView, spinner: nat) -> Seq<char> {
    if row.badge.active() {
        seq![spinner_char(spinner), ' '] + row.badge.text()
    } else {
        row.badge.text()
    }
}

/// The duration cell: elapsed time for active runs, total time for finished ones.
pub open spec fn duration_cell_text(row: RowView, now: int) -> Seq<char> {
    match (row.started_at, row.finished_at) {
        (Some(s), _) if row.badge.active() => duration_text(now - s),
        (Some(s), Some(e)) => duration_text(e - s),
        _ => "--"@,
    }
}

/// The ETA cell: remaining time (`~`) or overrun (`+`) for active runs with an estimate.
pub open spec fn eta_of(row: RowView, now: int) -> (Seq<char>, Style) {
    if !row.badge.active() {
        ("--"@, dim())
    } else {
        match (row.eta, row.started_at) {
            (Some(total), Some(start)) => {
                let remaining = total - (now - start);
                if remaining >= 0 {
                    (seq!['~'] + duration_text(remaining), fg(Color::Yellow))
                } else {
                    (seq!['+'] + duration_text(-remaining), fg(Color::Red))
                }
            },
            _ => ("--"@, dim()),
        }
    }
}

/// The character and color of a recent-history dot.
pub open spec fn dot_glyph(d: Dot) -> (char, Color) {
    match d {
        Dot::Pass => ('●', Color::Green),
        Dot::Fail => ('●', Color::Red),
        Dot::Active => ('◐', Color::Yellow),
        Dot::Other => ('○', Color::DarkGray),
    }
}

/// The spans of the first `k` dots, separated by spaces.
pub open spec fn dot_spans(dots: Seq<Dot>, k: nat) -> Seq<SpanView>
    decreases k,
{
    if k == 0 {
        Seq::empty()
    } else {
        dot_spans(dots, (k - 1) as nat) + (if k > 1 {
            seq![sv(seq![' '], raw_style())]
        } else {
            Seq::empty()
        }) + seq![sv(seq![dot_glyph(dots[k - 1]).0], fg(dot_glyph(dots[k - 1]).1))]
    }
}

/// The recent-history cell.
pub open spec fn recent_cell(dots: Seq<Dot>) -> CellView {
    if dots.len() == 0 {
        text_cell("--"@, dim())
    } else {
        (dot_spans(dots, dots.len()), (2 * dots.len() - 1) as nat)
    }
}

/// The fail-since cell: the short commit a failing workflow started failing on.
pub open spec fn fail_cell(row: RowView) -> CellView {
    match row.fail_since {
        Some(sha) if row.badge == Badge::Fail && sha.len() > 0 => {
            let short = sha.take(if sha.len() < 7 {
                sha.len() as int
            } else {
                7
            });
            (seq![sv(short, fg(Color::Red))], short.len())
        },
        _ => text_cell("--"@, dim()),
    }
}

/// The cells of a data row.
pub open spec fn data_cells(
    label: Seq<char>,
    row: RowView,
    now: int,
    spinner: nat,
    name_w: nat,
    started: Seq<char>,
    finished: Seq<char>,
) -> Seq<CellView> {
    let eta = eta_of(row, now);
    seq![
        text_cell_w(label, name_w, fg(Color::White)),
        text_cell(status_text(row, spinner), badge_style(row.badge)),
        text_cell(started, dim()),
        text_cell(finished, dim()),
        text_cell(duration_cell_text(row, now), dim()),
        (seq![sv(truncated(eta.0, W_ETA as nat), eta.1)], if eta.0.len() < W_ETA {
            eta.0.len()
        } else {
            W_ETA as nat
        }),
        recent_cell(row.recent),
        fail_cell(row),
    ]
}

/// One data row of a table.
pub open spec fn data_row(
    label: Seq<char>,
    row: RowView,
    now: int,
    spinner: nat,
    name_w: nat,
    started: Seq<char>,
    finished: Seq<char>,
) -> Seq<SpanView> {
    row_line(data_cells(label, row, now, spinner, name_w, started, finished), widths_of(name_w))
}

fn status_cell_exec(row: &WorkflowRow, spinner: usize) -> (c: Cell)
    ensures
        c@ == text_cell(status_text(row@, spinner as nat), badge_style(row.badge)),
{
    let mut s = String::new();
    if row.badge.is_active() {
        push_char(&mut s, spinner_frame(spinner));
        push_char(&mut s, ' ');
    }
    s.append(row.badge.label());
    assert(s@ =~= status_text(row@, spinner as nat));
    text_cell_exec(s.as_str(), badge_style_exec(row.badge))
}

fn duration_cell_exec(row: &WorkflowRow, now: i64) -> (r: String)
    ensures
        r@ == duration_cell_text(row@, now as int),
{
    match (row.started_at, row.finished_at) {
        (Some(s), _) if row.badge.is_active() => fmt_duration_wide(now as i128 - s as i128),
        (Some(s), Some(e)) => fmt_duration_wide(e as i128 - s as i128),
        _ => String::from_str("--"),
    }
}

fn eta_exec(row: &WorkflowRow, now: i64) -> (r: (String, Style))
    ensures
        (r.0@, r.1) == eta_of(row@, now as int),
{
    if !row.badge.is_active() {
        return (String::from_str("--"), dim_exec());
    }
    match (row.eta_total_secs, row.started_at) {
        (Some(total), Some(start)) => {
            let remaining: i128 = total as i128 - (now as i128 - start as i128);
            if remaining >= 0 {
                let mut s = String::from_str("~");
                let d = fmt_duration_wide(remaining);
                s.append(d.as_str());
                proof {
                    reveal_strlit("~");
                }
                (s, fg_exec(Color::Yellow))
            } else {
                let mut s = String::from_str("+");
                let d = fmt_duration_wide(-remaining);
                s.append(d.as_str());
                proof {
                    reveal_strlit("+");
                }
                (s, fg_exec(Color::Red))
            }
        },
        _ => (String::from_str("--"), dim_exec()),
    }
}

fn dot_span(d: Dot) -> (s: Span)
    ensures
        s@ == sv(seq![dot_glyph(d).0], fg(dot_glyph(d).1)),
{
    let (c, color) = match d {
        Dot::Pass => ('●', Color::Green),
        Dot::Fail => ('●', Color::Red),
        Dot::Active => ('◐', Color::Yellow),
        Dot::Other => ('○', Color::DarkGray),
    };
    let mut t = String::new();
    push_char(&mut t, c);
    assert(t@ =~= seq![c]);
    Span { content: t, style: fg_exec(color) }
}

proof fn lemma_dot_spans_len(dots: Seq<Dot>, k: nat)
    requires
        k <= dots.len(),
    ensures
        k > 0 ==> dot_spans(dots, k).len() == 2 * k - 1,
        k == 0 ==> dot_spans(dots, k).len() == 0,
    decreases k,
{
    if k > 0 {
        lemma_dot_spans_len(dots, (k - 1) as nat);
    }
}

fn recent_cell_exec(dots: &Vec<Dot>) -> (c: Cell)
    ensures
        c@ == recent_cell(dots@),
{
    if dots.len() == 0 {
        return text_cell_exec("--", dim_exec());
    }
    let mut spans: Vec<Span> = Vec::new();
    for i in 0..dots.len()
        invariant
            spans_view(spans@) == dot_spans(dots@, i as nat),
    {
        if i > 0 {
            let mut t = String::new();
            push_char(&mut t, ' ');
            push_span(&mut spans, Span { content: t, style: raw_style_exec() });
        }
        push_span(&mut spans, dot_span(dots[i]));
        assert(spans_view(spans@) =~= dot_spans(dots@, (i + 1) as nat));
    }
    proof {
        lemma_dot_spans_len(dots@, dots.len() as nat);
    }
    let width = spans.len();
    Cell { spans, width }
}

fn fail_cell_exec(row: &WorkflowRow) -> (c: Cell)
    ensures
        c@ == fail_cell(row@),
{
    match &row.fail_since_sha {
        Some(sha) => {
            let v = chars_of(sha.as_str());
            if row.badge == Badge::Fail && v.len() > 0 {
                let n = if v.len() < 7 {
                    v.len()
                } else {
                    7
                };
                let short = slice_chars(&v, 0, n);
                assert(short@ =~= sha@.take(n as int));
                let mut spans: Vec<Span> = Vec::new();
                push_span(&mut spans, Span { content: string_of(&short), style: fg_exec(Color::Red) });
                return Cell { spans, width: n };
            }
            text_cell_exec("--", dim_exec())
        },
        None => text_cell_exec("--", dim_exec()),
    }
}

/// One data row of a table.
pub fn data_row_exec(
    label: &str,
    row: &WorkflowRow,
    now: i64,
    spinner: usize,
    name_w: usize,
    started: &str,
    finished: &str,
) -> (l: Line)
    ensures
        l@ == data_row(label@, row@, now as int, spinner as nat, name_w as nat, started@, finished@),
{
    let widths = column_widths(name_w);
    let mut cells: Vec<Cell> = Vec::new();
    push_cell(&mut cells, text_cell_w_exec(label, name_w, fg_exec(Color::White)));
    push_cell(&mut cells, status_cell_exec(row, spinner));
    push_cell(&mut cells, text_cell_exec(started, dim_exec()));
    push_cell(&mut cells, text_cell_exec(finished, dim_exec()));
    let d = duration_cell_exec(row, now);
    push_cell(&mut cells, text_cell_exec(d.as_str(), dim_exec()));
    let (eta_text, eta_style) = eta_exec(row, now);
    let ev = chars_of(eta_text.as_str());
    let ew = if ev.len() < W_ETA {
        ev.len()
    } else {
        W_ETA
    };
    let et = truncate_chars(eta_text.as_str(), W_ETA);
    let mut espans: Vec<Span> = Vec::new();
    push_span(&mut espans, Span { content: string_of(&et), style: eta_style });
    push_cell(&mut cells, Cell { spans: espans, width: ew });
    push_cell(&mut cells, recent_cell_exec(&row.recent));
    push_cell(&mut cells, fail_cell_exec(row));
    let ghost dc = data_cells(label@, row@, now as int, spinner as nat, name_w as nat, started@, finished@);
    assert(cells_view(cells@)[0] == dc[0]);
    assert(cells_view(cells@)[1] == dc[1]);
    assert(cells_view(cells@)[4] == dc[4]);
    assert(cells_view(cells@)[5] == dc[5]);
    assert(cells_view(cells@)[6] == dc[6]);
    assert(cells_view(cells@)[7] == dc[7]);
    assert(cells_view(cells@) =~= data_cells(
        label@,
        row@,
        now as int,
        spinner as nat,
        name_w as nat,
        started@,
        finished@,
    ));
    row_line_exec(cells, &widths)
}

// ── local time ───────────────────────────────────────────────────

/// Timestamps within this many seconds of the epoch always have a calendar date.
pub const CALENDAR_SECS: i64 = 1099511627776;

/// The format of start and finish times.
pub open spec fn time_pattern() -> Seq<char> {
    "%m-%d %H:%M:%S"@
}

/// The format of the header clock.
pub open spec fn clock_pattern() -> Seq<char> {
    "%Y-%m-%d %H:%M:%S"@
}

/// What chrono's `format(pattern).to_string()` writes for the calendar date
/// and time `secs` seconds after the epoch, with no time zone applied (the
/// `NaiveDateTime` of that instant).
pub uninterp spec fn naive_text(secs: int, pattern: Seq<char>) -> Seq<char>;

/// A time zone's offset from UTC, in seconds: less than a day either way.
pub open spec fn is_offset(off: int) -> bool {
    -86400 < off < 86400
}

/// chrono: `DateTime::from_timestamp(secs, 0)`, converted to the machine's
/// local time zone with `with_timezone(&Local)` and formatted with `pattern`.
/// The text is that of the local date and time, `secs` plus the zone's offset
/// (a `FixedOffset`, under a day); which offset applies depends on the
/// machine's time zone and is left open. `from_timestamp` returns a date for
/// every timestamp within `CALENDAR_SECS` of the epoch.
#[verifier::external_body]
fn local_time_text(secs: i64, pattern: &str) -> (r: Option<String>)
    requires
        pattern@ == time_pattern() || pattern@ == clock_pattern(),
    ensures
        -CALENDAR_SECS <= secs <= CALENDAR_SECS ==> r is Some,
        r matches Some(x) ==> exists|off: int| is_offset(off) && x@ == naive_text(secs + off, pattern@),
{
    match chrono::DateTime::from_timestamp(secs, 0) {
        Some(t) => Some(t.with_timezone(&chrono::Local).format(pattern).to_string()),
        None => None,
    }
}

/// A time as shown: the local date and time of `secs` under some offset of
/// the machine's time zone, or `--` for a timestamp without a calendar date.
pub open spec fn local_text(secs: int, pattern: Seq<char>, text: Seq<char>) -> bool {
    ||| exists|off: int| is_offset(off) && text == naive_text(secs + off, pattern)
    ||| (text == "--"@ && !(-CALENDAR_SECS <= secs <= CALENDAR_SECS))
}

/// A start or finish time as shown: `--` when there is none.
pub open spec fn time_text(t: Option<i64>, text: Seq<char>) -> bool {
    match t {
        None => text == "--"@,
        Some(secs) => local_text(secs as int, time_pattern(), text),
    }
}

/// A start or finish time in local time, `--` when there is none.
pub fn fmt_time(t: Option<i64>) -> (r: String)
    ensures
        time_text(t, r@),
{
    proof {
        reveal_strlit("%m-%d %H:%M:%S");
    }
    match t {
        Some(secs) => match local_time_text(secs, "%m-%d %H:%M:%S") {
            Some(s) => s,
            None => String::from_str("--"),
        },
        None => String::from_str("--"),
    }
}

/// The local-time texts one frame shows: the clock, and each row's start and finish.
pub struct RowTimes {
    pub started: String,
    pub finished: String,
}

/// The local-time texts one frame shows.
pub struct TimeTexts {
    pub now: String,
    pub rows: Vec<Vec<RowTimes>>,
}

/// The texts of a sequence of row times.
pub open spec fn row_times_view(v: Seq<RowTimes>) -> Seq<(Seq<char>, Seq<char>)> {
    v.map_values(|t: RowTimes| (t.started@, t.finished@))
}

/// The local-time texts with their strings taken as characters.
pub struct TimesView {
    pub now: Seq<char>,
    pub rows: Seq<Seq<(Seq<char>, Seq<char>)>>,
}

impl View for TimeTexts {
    type V = TimesView;

    open spec fn view(&self) -> TimesView {
        TimesView {
            now: self.now@,
            rows: self.rows@.map_values(|v: Vec<RowTimes>| row_times_view(v@)),
        }
    }
}

/// The texts hold one entry per row of each repo.
pub open spec fn times_fit(t: TimesView, rs: Seq<RepoView>) -> bool {
    &&& t.rows.len() == rs.len()
    &&& forall|i: int| 0 <= i < rs.len() ==> #[trigger] t.rows[i].len() == rs[i].rows.len()
}

/// The texts are those of the frame: the clock shows `now`, and each row its
/// start and finish, in local time.
pub open spec fn times_shown(t: TimesView, now: i64, rs: Seq<RepoView>) -> bool {
    &&& times_fit(t, rs)
    &&& local_text(now as int, clock_pattern(), t.now)
    &&& forall|i: int, k: int|
        0 <= i < rs.len() && 0 <= k < rs[i].rows.len() ==> {
            &&& time_text(rs[i].rows[k].started_at, (#[trigger] t.rows[i][k]).0)
            &&& time_text(rs[i].rows[k].finished_at, t.rows[i][k].1)
        }
}

/// The local-time texts for a frame.
pub fn local_times(f: &Frame) -> (t: TimeTexts)
    ensures
        times_shown(t@, f.now, results_view(f.results@)),
{
    proof {
        reveal_strlit("%Y-%m-%d %H:%M:%S");
    }
    let now = match local_time_text(f.now, "%Y-%m-%d %H:%M:%S") {
        Some(s) => s,
        None => String::from_str("--"),
    };
    let ghost rs = results_view(f.results@);
    let mut rows: Vec<Vec<RowTimes>> = Vec::new();
    for i in 0..f.results.len()
        invariant
            rs == results_view(f.results@),
            rows.len() == i,
            forall|j: int| 0 <= j < i ==> (#[trigger] rows@[j]).len() == rs[j].rows.len(),
            forall|j: int, k: int|
                0 <= j < i && 0 <= k < rs[j].rows.len() ==> {
                    &&& time_text(rs[j].rows[k].started_at, (#[trigger] rows@[j]@[k]).started@)
                    &&& time_text(rs[j].rows[k].finished_at, rows@[j]@[k].finished@)
                },
    {
        let r = &f.results[i];
        let mut v: Vec<RowTimes> = Vec::new();
        for k in 0..r.rows.len()
            invariant
                v.len() == k,
                rs[i as int] == r@,
                forall|kk: int|
                    0 <= kk < k ==> {
                        &&& time_text(r@.rows[kk].started_at, (#[trigger] v@[kk]).started@)
                        &&& time_text(r@.rows[kk].finished_at, v@[kk].finished@)
                    },
        {
            let row = &r.rows[k];
            assert(r@.rows[k as int] == row@);
            v.push(RowTimes { started: fmt_time(row.started_at), finished: fmt_time(row.finished_at) });
        }
        rows.push(v);
    }
    let t = TimeTexts { now, rows };
    assert(t@.rows.len() == rs.len());
    assert forall|i: int| 0 <= i < rs.len() implies #[trigger] t@.rows[i].len() == rs[i].rows.len() by {
        assert(t@.rows[i] == row_times_view(rows@[i]@));
    }
    assert forall|i: int, k: int| 0 <= i < rs.len() && 0 <= k < rs[i].rows.len() implies {
        &&& time_text(rs[i].rows[k].started_at, (#[trigger] t@.rows[i][k]).0)
        &&& time_text(rs[i].rows[k].finished_at, t@.rows[i][k].1)
    } by {
        assert(t@.rows[i] == row_times_view(rows@[i]@));
        assert(t@.rows[i][k] == (rows@[i]@[k].started@, rows@[i]@[k].finished@));
    }
    t
}

// ── frames ───────────────────────────────────────────────────────

/// Watch-mode details shown in the header.
pub struct WatchInfo {
    pub interval: u64,
    pub remaining: i64,
}

/// Everything the renderer needs for one frame.
pub struct Frame<'a> {
    pub results: &'a Vec<RepoResult>,
    pub aggregate: bool,
    pub branch: &'a str,
    /// The current time, seconds since the epoch.
    pub now: i64,
    pub watch: Option<WatchInfo>,
    pub spinner: usize,
    pub loading: bool,
    /// A prompt or status line shown under the header.
    pub prompt: Option<Line>,
}

/// The refresh part of the watch header: the spinner while loading, else the countdown.
pub open spec fn spin_text(remaining: i64, loading: bool, spinner: nat) -> Seq<char> {
    if loading {
        seq![' ', spinner_char(spinner)] + " refreshing"@
    } else {
        " next in "@ + duration_text(if remaining > 0 {
            remaining as int
        } else {
            0
        })
    }
}

/// The header line: title, clock and, in watch mode, the refresh state and keys.
pub open spec fn header_line(now_text: Seq<char>, watch: Option<WatchInfo>, loading: bool, spinner: nat) -> Seq<SpanView> {
    let base = seq![
        sv("  "@, raw_style()),
        sv("GitHub Actions"@, bold(Color::Cyan)),
        sv("  "@ + now_text, dim()),
    ];
    match watch {
        None => base,
        Some(w) => base + seq![
            sv("  ⟳ every "@ + dec(w.interval as nat) + "s ·"@ + spin_text(w.remaining, loading, spinner), fg(Color::Cyan)),
            sv("   r refresh · q quit"@, dim()),
        ],
    }
}

fn cat(a: &str, b: &str) -> (r: String)
    ensures
        r@ == a@ + b@,
{
    let mut r = String::from_str(a);
    r.append(b);
    r
}

fn header_line_exec(now_text: &str, watch: &Option<WatchInfo>, loading: bool, spinner: usize) -> (l: Line)
    ensures
        l@ == header_line(now_text@, *watch, loading, spinner as nat),
{
    let mut spans: Vec<Span> = Vec::new();
    push_span(&mut spans, span_of("  ", raw_style_exec()));
    push_span(&mut spans, span_of("GitHub Actions", bold_exec(Color::Cyan)));
    push_span(&mut spans, Span { content: cat("  ", now_text), style: dim_exec() });
    match watch {
        Some(w) => {
            let mut t = String::from_str("  ⟳ every ");
            push_dec(&mut t, w.interval as u128);
            t.append("s ·");
            if loading {
                push_char(&mut t, ' ');
                push_char(&mut t, spinner_frame(spinner));
                t.append(" refreshing");
            } else {
                t.append(" next in ");
                let d = fmt_duration_wide(if w.remaining > 0 { w.remaining as i128 } else { 0 });
                t.append(d.as_str());
            }
            assert(t@ =~= "  ⟳ every "@ + dec(w.interval as nat) + "s ·"@ + spin_text(w.remaining, loading, spinner as nat));
            push_span(&mut spans, Span { content: t, style: fg_exec(Color::Cyan) });
            push_span(&mut spans, span_of("   r refresh · q quit", dim_exec()));
        },
        None => {},
    }
    assert(spans_view(spans@) =~= header_line(now_text@, *watch, loading, spinner as nat));
    Line { spans }
}

/// The largest of `ls`, 0 when empty.
pub open spec fn max_of(ls: Seq<nat>) -> nat
    decreases ls.len(),
{
    if ls.len() == 0 {
        0
    } else {
        let m = max_of(ls.drop_last());
        if ls.last() > m {
            ls.last()
        } else {
            m
        }
    }
}

/// The first column's width: the longest label, at least 8 and at most 40.
pub open spec fn name_width(ls: Seq<nat>) -> nat {
    let m = if ls.len() == 0 {
        8
    } else {
        max_of(ls)
    };
    if m < 8 {
        8
    } else if m > 40 {
        40
    } else {
        m
    }
}

/// The length of the sanitized text of a name.
pub open spec fn shown_len() -> spec_fn(RowView) -> nat {
    |r: RowView| sanitized(r.name).len()
}

/// The message line of a repo with nothing to tabulate.
pub open spec fn note_line(text: Seq<char>, style: Style) -> Seq<SpanView> {
    seq![sv("  "@, raw_style()), sv(text, style)]
}

/// The lines of one repo's table, given the local times of its rows.
pub open spec fn repo_lines(
    r: RepoView,
    branch: Seq<char>,
    now: int,
    spinner: nat,
    times: Seq<(Seq<char>, Seq<char>)>,
) -> Seq<Seq<SpanView>> {
    let head = seq![
        sv("  "@, raw_style()),
        sv(r.repo, bold(Color::Cyan)),
        sv(" ("@ + branch + ")"@, dim()),
    ];
    match r.error {
        Some(err) => seq![head, note_line("✗ "@ + err, fg(Color::Red)), empty_line()],
        None => if r.rows.len() == 0 {
            seq![head, note_line("no workflow runs found"@, dim()), empty_line()]
        } else {
            let w = name_width(r.rows.map_values(shown_len()));
            let ws = widths_of(w);
            seq![head, border(ws, '┌', '┬', '┐'), header_row(w, "Workflow"@), border(ws, '├', '┼', '┤')]
                + Seq::new(
                r.rows.len(),
                |k: int| data_row(r.rows[k].name, r.rows[k], now, spinner, w, times[k].0, times[k].1),
            ) + seq![border(ws, '└', '┴', '┘'), empty_line()]
        },
    }
}

fn note_line_exec(text: String, style: Style) -> (l: Line)
    ensures
        l@ == note_line(text@, style),
{
    let mut spans: Vec<Span> = Vec::new();
    push_span(&mut spans, span_of("  ", raw_style_exec()));
    push_span(&mut spans, Span { content: text, style });
    assert(spans_view(spans@) =~= note_line(text@, style));
    Line { spans }
}

fn widths_small(w: &Vec<usize>, name_w: usize)
    requires
        name_w <= 40,
        w@ == seq![name_w, W_STATUS, W_STARTED, W_FINISHED, W_DURATION, W_ETA, W_RECENT, W_FAILSINCE],
    ensures
        forall|i: int| 0 <= i < w.len() ==> w@[i] < 1000,
{
    assert forall|i: int| 0 <= i < w.len() implies w@[i] < 1000 by {
        if i == 0 {} else if i == 1 {} else if i == 2 {} else if i == 3 {} else if i == 4 {} else if i == 5 {} else if i == 6 {} else {}
    }
}

/// The first column's width for labels of these lengths.
fn name_width_exec(ls: &Vec<usize>) -> (w: usize)
    ensures
        w as nat == name_width(ls@.map_values(|x: usize| x as nat)),
        8 <= w <= 40,
{
    let ghost lv = ls@.map_values(|x: usize| x as nat);
    let mut m: usize = 0;
    for i in 0..ls.len()
        invariant
            lv == ls@.map_values(|x: usize| x as nat),
            m as nat == max_of(lv.take(i as int)),
    {
        assert(lv.take(i + 1).drop_last() =~= lv.take(i as int));
        if ls[i] > m {
            m = ls[i];
        }
    }
    assert(lv.take(ls.len() as int) =~= lv);
    if ls.len() == 0 {
        m = 8;
    }
    if m < 8 {
        8
    } else if m > 40 {
        40
    } else {
        m
    }
}

/// Appends the lines of one repo's table.
fn push_repo_lines(
    out: &mut Vec<Line>,
    r: &RepoResult,
    branch: &str,
    now: i64,
    spinner: usize,
    times: &Vec<RowTimes>,
)
    requires
        times.len() == r.rows.len(),
    ensures
        lines_view(final(out)@) == lines_view(old(out)@) + repo_lines(
            r@,
            branch@,
            now as int,
            spinner as nat,
            row_times_view(times@),
        ),
{
    let ghost tv = row_times_view(times@);
    let ghost start = lines_view(out@);
    let mut head: Vec<Span> = Vec::new();
    push_span(&mut head, span_of("  ", raw_style_exec()));
    push_span(&mut head, Span { content: r.repo.clone(), style: bold_exec(Color::Cyan) });
    let mut b = cat(" (", branch);
    b.append(")");
    push_span(&mut head, Span { content: b, style: dim_exec() });
    let ghost hv = spans_view(head@);
    assert(hv =~= seq![
        sv("  "@, raw_style()),
        sv(r@.repo, bold(Color::Cyan)),
        sv(" ("@ + branch@ + ")"@, dim()),
    ]);
    push_line(out, Line { spans: head });
    match &r.error {
        Some(err) => {
            assert(r@.error == Some(err@));
            push_line(out, note_line_exec(cat("✗ ", err.as_str()), fg_exec(Color::Red)));
            push_line(out, empty_line_exec());
            assert(lines_view(out@) =~= start + seq![hv, note_line("✗ "@ + err@, fg(Color::Red)), empty_line()]);
            assert(lines_view(out@) =~= start + repo_lines(r@, branch@, now as int, spinner as nat, tv));
            return;
        },
        None => {},
    }
    assert(r@.error is None);
    if r.rows.len() == 0 {
        push_line(out, note_line_exec(String::from_str("no workflow runs found"), dim_exec()));
        push_line(out, empty_line_exec());
        assert(lines_view(out@) =~= start + seq![hv, note_line("no workflow runs found"@, dim()), empty_line()]);
        assert(lines_view(out@) =~= start + repo_lines(r@, branch@, now as int, spinner as nat, tv));
        return;
    }
    let mut lens: Vec<usize> = Vec::new();
    for k in 0..r.rows.len()
        invariant
            lens@.map_values(|x: usize| x as nat) == r@.rows.take(k as int).map_values(shown_len()),
    {
        let n = sanitize_chars(&chars_of(r.rows[k].workflow_name.as_str())).len();
        assert(r@.rows[k as int] == r.rows@[k as int]@);
        assert(n as nat == shown_len()(r@.rows[k as int]));
        assert(r@.rows.take(k + 1) =~= r@.rows.take(k as int).push(r@.rows[k as int]));
        let ghost before = lens@;
        lens.push(n);
        assert(lens@.map_values(|x: usize| x as nat) =~= before.map_values(|x: usize| x as nat).push(n as nat));
        assert(r@.rows.take(k + 1).map_values(shown_len()) =~= r@.rows.take(k as int).map_values(shown_len()).push(shown_len()(r@.rows[k as int])));
        assert(lens@.map_values(|x: usize| x as nat) =~= r@.rows.take(k + 1).map_values(shown_len()));
    }
    assert(r@.rows.take(r.rows.len() as int) =~= r@.rows);
    let w = name_width_exec(&lens);
    let widths = column_widths(w);
    widths_small(&widths, w);
    let ghost ws = widths_of(w as nat);
    push_line(out, border_exec(&widths, '┌', '┬', '┐'));
    push_line(out, header_row_exec(w, "Workflow"));
    push_line(out, border_exec(&widths, '├', '┼', '┤'));
    let ghost mid = lines_view(out@);
    let ghost rows_part = Seq::new(
        r@.rows.len(),
        |k: int| data_row(r@.rows[k].name, r@.rows[k], now as int, spinner as nat, w as nat, tv[k].0, tv[k].1),
    );
    for k in 0..r.rows.len()
        invariant
            tv == row_times_view(times@),
            times.len() == r.rows.len(),
            lines_view(out@) == mid + rows_part.take(k as int),
            rows_part == Seq::new(
                r@.rows.len(),
                |k: int| data_row(r@.rows[k].name, r@.rows[k], now as int, spinner as nat, w as nat, tv[k].0, tv[k].1),
            ),
    {
        let row = &r.rows[k];
        let l = data_row_exec(
            row.workflow_name.as_str(),
            row,
            now,
            spinner,
            w,
            times[k].started.as_str(),
            times[k].finished.as_str(),
        );
        assert(tv[k as int] == (times@[k as int].started@, times@[k as int].finished@));
        push_line(out, l);
        assert(rows_part.take(k + 1) =~= rows_part.take(k as int).push(rows_part[k as int]));
    }
    assert(rows_part.take(r.rows.len() as int) =~= rows_part);
    push_line(out, border_exec(&widths, '└', '┴', '┘'));
    push_line(out, empty_line_exec());
    assert(widths@.map_values(|x: usize| x as nat) == ws);
    assert(lens@.map_values(|x: usize| x as nat) == r@.rows.map_values(shown_len()));
    assert(lines_view(out@) =~= start + seq![hv, border(ws, '┌', '┬', '┐'), header_row(w as nat, "Workflow"@), border(ws, '├', '┼', '┤')] + rows_part + seq![border(ws, '└', '┴', '┘'), empty_line()]);
    assert(lines_view(out@) =~= start + repo_lines(r@, branch@, now as int, spinner as nat, tv));
}

// ── aggregate table ──────────────────────────────────────────────

/// The last `/`-separated segment of a repo name (as `rsplit('/').next()`).
pub open spec fn short_name(s: Seq<char>) -> Seq<char>
    decreases s.len(),
{
    if s.len() == 0 {
        s
    } else if s.last() == '/' {
        Seq::empty()
    } else {
        short_name(s.drop_last()).push(s.last())
    }
}

/// Every (repo index, row index) pair, repos in order and rows in order.
pub open spec fn entries_of(rs: Seq<RepoView>) -> Seq<(int, int)>
    decreases rs.len(),
{
    if rs.len() == 0 {
        Seq::empty()
    } else {
        entries_of(rs.drop_last()) + Seq::new(rs.last().rows.len(), |k: int| ((rs.len() - 1) as int, k))
    }
}

/// The label of an aggregate entry: short repo name, `/`, sanitized workflow name.
pub open spec fn label_of(rs: Seq<RepoView>, e: (int, int)) -> Seq<char> {
    short_name(rs[e.0].repo) + seq!['/'] + sanitized(rs[e.0].rows[e.1].name)
}

/// The error lines of the aggregate view, one per repo that failed to fetch.
pub open spec fn error_lines(rs: Seq<RepoView>) -> Seq<Seq<SpanView>>
    decreases rs.len(),
{
    if rs.len() == 0 {
        Seq::empty()
    } else {
        error_lines(rs.drop_last()) + match rs.last().error {
            Some(err) => seq![note_line("✗ "@ + rs.last().repo + ": "@ + err, fg(Color::Red))],
            None => Seq::empty(),
        }
    }
}

/// The data rows of the aggregate table for the first `n` entries, with a
/// separator wherever the repo changes.
pub open spec fn aggregate_rows(
    rs: Seq<RepoView>,
    es: Seq<(int, int)>,
    w: nat,
    now: int,
    spinner: nat,
    t: TimesView,
    n: nat,
) -> Seq<Seq<SpanView>>
    decreases n,
{
    if n == 0 {
        Seq::empty()
    } else {
        let e = es[n - 1];
        aggregate_rows(rs, es, w, now, spinner, t, (n - 1) as nat) + (if n >= 2 && short_name(
            rs[es[n - 2].0].repo,
        ) != short_name(rs[e.0].repo) {
            seq![border(widths_of(w), '├', '┼', '┤')]
        } else {
            Seq::empty()
        }) + seq![
            data_row(label_of(rs, e), rs[e.0].rows[e.1], now, spinner, w, t.rows[e.0][e.1].0, t.rows[e.0][e.1].1),
        ]
    }
}

/// The single table of every repo's rows, then the repos that failed.
pub open spec fn aggregate_lines(rs: Seq<RepoView>, now: int, spinner: nat, t: TimesView) -> Seq<Seq<SpanView>> {
    let es = entries_of(rs);
    if es.len() == 0 {
        seq![note_line("no workflow runs found"@, dim())] + error_lines(rs)
    } else {
        let w = name_width(es.map_values(|e: (int, int)| label_of(rs, e).len()));
        let ws = widths_of(w);
        seq![border(ws, '┌', '┬', '┐'), header_row(w, "Repo/Workflow"@), border(ws, '├', '┼', '┤')]
            + aggregate_rows(rs, es, w, now, spinner, t, es.len()) + seq![border(ws, '└', '┴', '┘'), empty_line()]
            + error_lines(rs)
    }
}

fn short_of(s: &str) -> (r: Vec<char>)
    ensures
        r@ == short_name(s@),
{
    let v = chars_of(s);
    let mut j = v.len();
    assert(v@.take(j as int) =~= v@);
    assert(short_name(v@) + v@.skip(j as int) =~= short_name(v@));
    while j > 0 && v[j - 1] != '/'
        invariant
            j <= v.len(),
            forall|i: int| j <= i < v.len() ==> v@[i] != '/',
            short_name(v@) == short_name(v@.take(j as int)) + v@.skip(j as int),
        decreases j,
    {
        assert(v@.take(j as int).drop_last() =~= v@.take(j - 1));
        assert(v@.skip(j - 1) =~= seq![v@[j - 1]] + v@.skip(j as int));
        assert(short_name(v@.take(j as int)) == short_name(v@.take(j - 1)).push(v@[j - 1]));
        j = j - 1;
    }
    proof {
        if j > 0 {
            assert(v@.take(j as int).last() == '/');
        }
    }
    slice_chars(&v, j, v.len())
}

/// The entries of a vector of pairs.
pub open spec fn pairs_view(v: Seq<(usize, usize)>) -> Seq<(int, int)> {
    v.map_values(|p: (usize, usize)| (p.0 as int, p.1 as int))
}

/// Appends the lines of the aggregate table.
fn push_aggregate_lines(out: &mut Vec<Line>, rs: &Vec<RepoResult>, now: i64, spinner: usize, t: &TimeTexts)
    requires
        times_fit(t@, results_view(rs@)),
    ensures
        lines_view(final(out)@) == lines_view(old(out)@) + aggregate_lines(
            results_view(rs@),
            now as int,
            spinner as nat,
            t@,
        ),
{
    let ghost rv = results_view(rs@);
    let ghost start = lines_view(out@);
    let mut ents: Vec<(usize, usize)> = Vec::new();
    let mut labels: Vec<Vec<char>> = Vec::new();
    let mut shorts: Vec<Vec<char>> = Vec::new();
    for i in 0..rs.len()
        invariant
            rv == results_view(rs@),
            pairs_view(ents@) == entries_of(rv.take(i as int)),
            labels.len() == ents.len(),
            shorts.len() == ents.len(),
            forall|e: int| 0 <= e < ents.len() ==> {
                &&& 0 <= (#[trigger] ents@[e]).0 < rs.len()
                &&& ents@[e].1 < rv[ents@[e].0 as int].rows.len()
                &&& labels@[e]@ == label_of(rv, pairs_view(ents@)[e])
                &&& shorts@[e]@ == short_name(rv[ents@[e].0 as int].repo)
            },
    {
        let r = &rs[i];
        assert(rv[i as int] == r@);
        let short = short_of(r.repo.as_str());
        let ghost base = pairs_view(ents@);
        for k in 0..r.rows.len()
            invariant
                rv == results_view(rs@),
                rv[i as int] == r@,
                i < rs.len(),
                short@ == short_name(r@.repo),
                pairs_view(ents@) == base + Seq::new(k as nat, |kk: int| (i as int, kk)),
                labels.len() == ents.len(),
                shorts.len() == ents.len(),
                forall|e: int| 0 <= e < ents.len() ==> {
                    &&& 0 <= (#[trigger] ents@[e]).0 < rs.len()
                    &&& ents@[e].1 < rv[ents@[e].0 as int].rows.len()
                    &&& labels@[e]@ == label_of(rv, pairs_view(ents@)[e])
                    &&& shorts@[e]@ == short_name(rv[ents@[e].0 as int].repo)
                },
        {
            let mut label = short.clone();
            label.push('/');
            let name = sanitize_chars(&chars_of(r.rows[k].workflow_name.as_str()));
            let mut name = name;
            label.append(&mut name);
            assert(r@.rows[k as int] == r.rows@[k as int]@);
            assert(label@ =~= label_of(rv, (i as int, k as int)));
            let ghost before = ents@;
            ents.push((i, k));
            assert(pairs_view(ents@) =~= pairs_view(before).push((i as int, k as int)));
            assert(pairs_view(ents@) =~= base + Seq::new((k + 1) as nat, |kk: int| (i as int, kk)));
            labels.push(label);
            shorts.push(short.clone());
        }
        assert(rv.take(i + 1).drop_last() =~= rv.take(i as int));
        assert(rv.take(i + 1).last() == r@);
        assert(pairs_view(ents@) =~= entries_of(rv.take(i + 1)));
    }
    assert(rv.take(rs.len() as int) =~= rv);
    let ghost es = entries_of(rv);
    let n = ents.len();
    if n == 0 {
        push_line(out, note_line_exec(String::from_str("no workflow runs found"), dim_exec()));
    } else {
        let mut lens: Vec<usize> = Vec::new();
        for e in 0..n
            invariant
                n == ents.len(),
                labels.len() == n,
                forall|e: int| 0 <= e < n ==> (#[trigger] labels@[e])@ == label_of(rv, es[e]),
                pairs_view(ents@) == es,
                lens@.map_values(|x: usize| x as nat) == es.take(e as int).map_values(
                    |e: (int, int)| label_of(rv, e).len(),
                ),
        {
            let ghost before = lens@;
            assert(labels@[e as int]@ == label_of(rv, es[e as int]));
            lens.push(labels[e].len());
            assert(lens@.map_values(|x: usize| x as nat) =~= before.map_values(|x: usize| x as nat).push(labels@[e as int]@.len()));
            assert(es.take(e + 1) =~= es.take(e as int).push(es[e as int]));
            assert(lens@.map_values(|x: usize| x as nat) =~= es.take(e + 1).map_values(
                |e: (int, int)| label_of(rv, e).len(),
            ));
        }
        assert(es.take(n as int) =~= es);
        let w = name_width_exec(&lens);
        let widths = column_widths(w);
        widths_small(&widths, w);
        let ghost ws = widths_of(w as nat);
        assert(widths@.map_values(|x: usize| x as nat) == ws);
        push_line(out, border_exec(&widths, '┌', '┬', '┐'));
        push_line(out, header_row_exec(w, "Repo/Workflow"));
        push_line(out, border_exec(&widths, '├', '┼', '┤'));
        let ghost mid = lines_view(out@);
        for e in 0..n
            invariant
                rv == results_view(rs@),
                times_fit(t@, rv),
                n == ents.len(),
                labels.len() == n,
                shorts.len() == n,
                pairs_view(ents@) == es,
                es == entries_of(rv),
                widths@.map_values(|x: usize| x as nat) == widths_of(w as nat),
                forall|i: int| 0 <= i < widths.len() ==> widths@[i] < 1000,
                forall|e: int| 0 <= e < ents.len() ==> {
                    &&& 0 <= (#[trigger] ents@[e]).0 < rs.len()
                    &&& ents@[e].1 < rv[ents@[e].0 as int].rows.len()
                    &&& labels@[e]@ == label_of(rv, pairs_view(ents@)[e])
                    &&& shorts@[e]@ == short_name(rv[ents@[e].0 as int].repo)
                },
                lines_view(out@) == mid + aggregate_rows(rv, es, w as nat, now as int, spinner as nat, t@, e as nat),
        {
            let (i, k) = ents[e];
            assert(es[e as int] == (i as int, k as int));
            let ghost before = lines_view(out@);
            let sep = e > 0 && !crate::text::chars_eq(&shorts[e - 1], &shorts[e]);
            if sep {
                push_line(out, border_exec(&widths, '├', '┼', '┤'));
            }
            let label = string_of(&labels[e]);
            let row = &rs[i].rows[k];
            assert(rv[i as int].rows[k as int] == row@);
            assert(t@.rows[i as int] == row_times_view(t.rows@[i as int]@));
            assert(t@.rows[i as int].len() == rv[i as int].rows.len());
            assert(t@.rows[i as int][k as int] == (t.rows@[i as int]@[k as int].started@, t.rows@[i as int]@[k as int].finished@));
            let l = data_row_exec(
                label.as_str(),
                row,
                now,
                spinner,
                w,
                t.rows[i][k].started.as_str(),
                t.rows[i][k].finished.as_str(),
            );
            push_line(out, l);
            assert(lines_view(out@) =~= mid + aggregate_rows(rv, es, w as nat, now as int, spinner as nat, t@, (e + 1) as nat));
        }
        push_line(out, border_exec(&widths, '└', '┴', '┘'));
        push_line(out, empty_line_exec());
    }
    let ghost before_errs = lines_view(out@);
    for i in 0..rs.len()
        invariant
            rv == results_view(rs@),
            lines_view(out@) == before_errs + error_lines(rv.take(i as int)),
    {
        let r = &rs[i];
        assert(rv.take(i + 1).drop_last() =~= rv.take(i as int));
        assert(rv.take(i + 1).last() == r@);
        match &r.error {
            Some(err) => {
                let mut m = cat("✗ ", r.repo.as_str());
                m.append(": ");
                m.append(err.as_str());
                push_line(out, note_line_exec(m, fg_exec(Color::Red)));
            },
            None => {},
        }
        assert(lines_view(out@) =~= before_errs + error_lines(rv.take(i + 1)));
    }
    assert(rv.take(rs.len() as int) =~= rv);
    assert(lines_view(out@) =~= start + aggregate_lines(rv, now as int, spinner as nat, t@));
}

// ── whole frames ─────────────────────────────────────────────────

/// The per-repo tables of the first `n` repos.
pub open spec fn all_repo_lines(
    rs: Seq<RepoView>,
    branch: Seq<char>,
    now: int,
    spinner: nat,
    t: TimesView,
    n: nat,
) -> Seq<Seq<SpanView>>
    decreases n,
{
    if n == 0 {
        Seq::empty()
    } else {
        all_repo_lines(rs, branch, now, spinner, t, (n - 1) as nat) + repo_lines(
            rs[n - 1],
            branch,
            now,
            spinner,
            t.rows[n - 1],
        )
    }
}

/// The prompt line of a frame, if it has one.
pub open spec fn prompt_view(p: Option<Line>) -> Option<Seq<SpanView>> {
    match p {
        Some(l) => Some(l@),
        None => None,
    }
}

/// Every line of a frame, given the local-time texts: a blank line, the
/// header, the prompt if any, a blank line, then the aggregate table or one
/// table per repo.
pub open spec fn frame_lines(f: &Frame, t: TimesView) -> Seq<Seq<SpanView>> {
    let rs = results_view(f.results@);
    seq![empty_line(), header_line(t.now, f.watch, f.loading, f.spinner as nat)] + (match prompt_view(
        f.prompt,
    ) {
        Some(p) => seq![p],
        None => Seq::empty(),
    }) + seq![empty_line()] + if f.aggregate {
        aggregate_lines(rs, f.now as int, f.spinner as nat, t)
    } else {
        all_repo_lines(rs, f.branch@, f.now as int, f.spinner as nat, t, rs.len())
    }
}

/// A copy of a line.
pub fn copy_line(l: &Line) -> (r: Line)
    ensures
        r@ == l@,
{
    let mut spans: Vec<Span> = Vec::new();
    for i in 0..l.spans.len()
        invariant
            spans_view(spans@) == spans_view(l.spans@.take(i as int)),
    {
        let s = &l.spans[i];
        push_span(&mut spans, Span { content: s.content.clone(), style: s.style });
        assert(spans_view(l.spans@.take(i + 1)) =~= spans_view(l.spans@.take(i as int)).push(s@));
    }
    assert(l.spans@.take(l.spans.len() as int) =~= l.spans@);
    Line { spans }
}

/// Every line of a frame, given its local-time texts.
pub fn render_lines(f: &Frame, t: &TimeTexts) -> (lines: Vec<Line>)
    requires
        times_fit(t@, results_view(f.results@)),
    ensures
        lines_view(lines@) == frame_lines(f, t@),
{
    let ghost rs = results_view(f.results@);
    let mut lines: Vec<Line> = Vec::new();
    push_line(&mut lines, empty_line_exec());
    push_line(&mut lines, header_line_exec(t.now.as_str(), &f.watch, f.loading, f.spinner));
    match &f.prompt {
        Some(p) => push_line(&mut lines, copy_line(p)),
        None => {},
    }
    push_line(&mut lines, empty_line_exec());
    let ghost head = lines_view(lines@);
    if f.aggregate {
        push_aggregate_lines(&mut lines, f.results, f.now, f.spinner, t);
    } else {
        for i in 0..f.results.len()
            invariant
                rs == results_view(f.results@),
                times_fit(t@, rs),
                lines_view(lines@) == head + all_repo_lines(rs, f.branch@, f.now as int, f.spinner as nat, t@, i as nat),
        {
            let r = &f.results[i];
            assert(rs[i as int] == r@);
            assert(t@.rows[i as int] == row_times_view(t.rows@[i as int]@));
            assert(t@.rows[i as int].len() == rs[i as int].rows.len());
            push_repo_lines(&mut lines, r, f.branch, f.now, f.spinner, &t.rows[i]);
        }
    }
    lines
}

/// Every line of a frame, with times shown in the machine's local time zone.
pub fn build_lines(f: &Frame) -> (lines: Vec<Line>)
    ensures
        exists|t: TimesView|
            times_shown(t, f.now, results_view(f.results@)) && lines_view(lines@) == frame_lines(f, t),
{
    let t = local_times(f);
    let lines = render_lines(f, &t);
    assert(times_shown(t@, f.now, results_view(f.results@)) && lines_view(lines@) == frame_lines(f, t@));
    lines
}

// ── ANSI output ──────────────────────────────────────────────────

/// The SGR code of a color.
pub open spec fn color_code(c: Color) -> Seq<char> {
    match c {
        Color::Red => "31"@,
        Color::Green => "32"@,
        Color::Yellow => "33"@,
        Color::Cyan => "36"@,
        Color::White => "37"@,
        Color::DarkGray => "90"@,
    }
}

/// The SGR parameters of a style, in order, before joining.
pub open spec fn sgr_parts(s: Style) -> Seq<Seq<char>> {
    (if s.bold {
        seq!["1"@]
    } else {
        Seq::empty()
    }) + (if s.dim {
        seq!["2"@]
    } else {
        Seq::empty()
    }) + match s.fg {
        Some(c) => seq![color_code(c)],
        None => Seq::empty(),
    }
}

/// Parts joined by `;`.
pub open spec fn join_semi(parts: Seq<Seq<char>>) -> Seq<char>
    decreases parts.len(),
{
    if parts.len() == 0 {
        Seq::empty()
    } else if parts.len() == 1 {
        parts[0]
    } else {
        join_semi(parts.drop_last()) + seq![';'] + parts.last()
    }
}

/// The SGR parameters of a style, joined by `;`.
pub open spec fn sgr_codes(s: Style) -> Seq<char> {
    join_semi(sgr_parts(s))
}

fn color_code_exec(c: Color) -> (r: &'static str)
    ensures
        r@ == color_code(c),
{
    match c {
        Color::Red => "31",
        Color::Green => "32",
        Color::Yellow => "33",
        Color::Cyan => "36",
        Color::White => "37",
        Color::DarkGray => "90",
    }
}

fn sgr_codes_exec(s: Style) -> (r: String)
    ensures
        r@ == sgr_codes(s),
{
    let mut r = String::new();
    let mut n: usize = 0;
    let ghost mut parts: Seq<Seq<char>> = Seq::empty();
    if s.bold {
        r.append("1");
        n = 1;
        proof {
            parts = seq!["1"@];
        }
    }
    assert(r@ == join_semi(parts) && parts.len() == n);
    if s.dim {
        if n > 0 {
            push_char(&mut r, ';');
        }
        r.append("2");
        proof {
            let np = parts.push("2"@);
            assert(np.drop_last() =~= parts);
            parts = np;
        }
        n = n + 1;
    }
    assert(r@ == join_semi(parts) && parts.len() == n);
    match s.fg {
        Some(c) => {
            if n > 0 {
                push_char(&mut r, ';');
            }
            r.append(color_code_exec(c));
            proof {
                let np = parts.push(color_code(c));
                assert(np.drop_last() =~= parts);
                parts = np;
            }
        },
        None => {},
    }
    assert(parts =~= sgr_parts(s));
    r
}

/// One span as ANSI text: plain when unstyled, else wrapped in an SGR sequence and a reset.
pub open spec fn ansi_span(s: SpanView) -> Seq<char> {
    if sgr_codes(s.style).len() == 0 {
        s.text
    } else {
        "\x1b["@ + sgr_codes(s.style) + "m"@ + s.text + "\x1b[0m"@
    }
}

/// The spans of a line as ANSI text.
pub open spec fn ansi_spans(spans: Seq<SpanView>) -> Seq<char>
    decreases spans.len(),
{
    if spans.len() == 0 {
        Seq::empty()
    } else {
        ansi_spans(spans.drop_last()) + ansi_span(spans.last())
    }
}

/// Lines as ANSI text, each ended by a newline.
pub open spec fn ansi_text(lines: Seq<Seq<SpanView>>) -> Seq<char>
    decreases lines.len(),
{
    if lines.len() == 0 {
        Seq::empty()
    } else {
        ansi_text(lines.drop_last()) + ansi_spans(lines.last()) + seq!['\n']
    }
}

/// Render lines to an ANSI-colored string for one-shot (non-TUI) output.
pub fn lines_to_ansi(lines: &Vec<Line>) -> (out: String)
    ensures
        out@ == ansi_text(lines_view(lines@)),
{
    let ghost lv = lines_view(lines@);
    let mut out = String::new();
    for i in 0..lines.len()
        invariant
            lv == lines_view(lines@),
            out@ == ansi_text(lv.take(i as int)),
    {
        let line = &lines[i];
        let ghost before = out@;
        let ghost sp = line@;
        for k in 0..line.spans.len()
            invariant
                sp == line@,
                sp == spans_view(line.spans@),
                out@ == before + ansi_spans(sp.take(k as int)),
        {
            let span = &line.spans[k];
            assert(sp[k as int] == span@);
            let codes = sgr_codes_exec(span.style);
            if codes.as_str().unicode_len() == 0 {
                out.append(span.content.as_str());
            } else {
                out.append("\x1b[");
                out.append(codes.as_str());
                out.append("m");
                out.append(span.content.as_str());
                out.append("\x1b[0m");
            }
            assert(sp.take(k + 1).drop_last() =~= sp.take(k as int));
            assert(out@ =~= before + ansi_spans(sp.take(k + 1)));
        }
        assert(sp.take(line.spans.len() as int) =~= sp);
        push_char(&mut out, '\n');
        assert(lv.take(i + 1).drop_last() =~= lv.take(i as int));
        assert(lv[i as int] == sp);
        assert(out@ =~= ansi_text(lv.take(i + 1)));
    }
    assert(lv.take(lines.len() as int) =~= lv);
    out
}

/// ANSI output is written line by line: the output of two runs of lines is
/// the output of the first run followed by that of the second, and each
/// line is its spans followed by a newline.
pub proof fn law_ansi_line_by_line(a: Seq<Seq<SpanView>>, b: Seq<Seq<SpanView>>, l: Seq<SpanView>)
    ensures
        ansi_text(a + b) == ansi_text(a) + ansi_text(b),
        ansi_text(seq![l]) == ansi_spans(l) + seq!['\n'],
    decreases b.len(),
{
    if b.len() == 0 {
        assert(a + b =~= a);
        assert(ansi_text(a) + ansi_text(b) =~= ansi_text(a));
    } else {
        law_ansi_line_by_line(a, b.drop_last(), l);
        assert((a + b).drop_last() =~= a + b.drop_last());
        assert(ansi_text(a + b) =~= ansi_text(a) + ansi_text(b));
    }
    let e = Seq::<Seq<SpanView>>::empty();
    assert(seq![l].drop_last() =~= e);
    assert(ansi_text(e) == Seq::<char>::empty());
    assert(ansi_text(seq![l]) =~= ansi_spans(l) + seq!['\n']);
}

/// The web page of a commit.
pub open spec fn commit_url_text(repo: Seq<char>, sha: Seq<char>) -> Seq<char> {
    "https://github.com/"@ + repo + "/commit/"@ + sha
}

/// The web page of a commit.
pub fn commit_url(repo: &str, sha: &str) -> (url: String)
    ensures
        url@ == commit_url_text(repo@, sha@),
{
    let mut u = String::from_str("https://github.com/");
    u.append(repo);
    u.append("/commit/");
    u.append(sha);
    u
}

/// The recent dot of a failing run is a red disc, that of a passing run a
/// green disc, that of an active run a yellow half disc, and any other a grey
/// circle: a failing dot never looks like a passing one.
pub proof fn law_dot_colors()
    ensures
        dot_glyph(Dot::Fail) == ('●', Color::Red),
        dot_glyph(Dot::Pass) == ('●', Color::Green),
        dot_glyph(Dot::Active) == ('◐', Color::Yellow),
        dot_glyph(Dot::Other) == ('○', Color::DarkGray),
        forall|a: Dot, b: Dot| a != b ==> #[trigger] dot_glyph(a) != #[trigger] dot_glyph(b),
{
}

proof fn lemma_dot_spans(dots: Seq<Dot>, k: nat, i: int)
    requires
        k <= dots.len(),
        0 <= i < k,
    ensures
        dot_spans(dots, k).len() == 2 * k - 1,
        dot_spans(dots, k)[2 * i] == sv(seq![dot_glyph(dots[i]).0], fg(dot_glyph(dots[i]).1)),
        i > 0 ==> dot_spans(dots, k)[2 * i - 1] == sv(seq![' '], raw_style()),
    decreases k,
{
    lemma_dot_spans_len(dots, k);
    lemma_dot_spans_len(dots, (k - 1) as nat);
    if k == 1 {
        assert(dot_spans(dots, 0) == Seq::<SpanView>::empty());
    } else if i < k - 1 {
        lemma_dot_spans(dots, (k - 1) as nat, i);
    }
}

/// The recent cell draws the dots in order, separated by spaces: the `i`-th
/// dot is the `2i`-th span, drawn in its dot's color (red for a failure).
pub proof fn law_recent_cell_in_order(dots: Seq<Dot>, i: int)
    requires
        0 <= i < dots.len(),
    ensures
        recent_cell(dots).0.len() == 2 * dots.len() - 1,
        recent_cell(dots).0[2 * i].style == fg(dot_glyph(dots[i]).1),
        recent_cell(dots).0[2 * i].text == seq![dot_glyph(dots[i]).0],
        dots[i] == Dot::Fail ==> recent_cell(dots).0[2 * i].style == fg(Color::Red),
        dots[i] == Dot::Pass ==> recent_cell(dots).0[2 * i].style == fg(Color::Green),
        i > 0 ==> recent_cell(dots).0[2 * i - 1].text == seq![' '],
{
    lemma_dot_spans(dots, dots.len(), i);
}

/// Each color is its standard SGR foreground code (red 31, green 32, yellow
/// 33, cyan 36, white 37, dark gray 90), and different colors get different codes.
pub proof fn law_color_codes()
    ensures
        color_code(Color::Red) == "31"@,
        color_code(Color::Green) == "32"@,
        color_code(Color::Yellow) == "33"@,
        color_code(Color::Cyan) == "36"@,
        color_code(Color::White) == "37"@,
        color_code(Color::DarkGray) == "90"@,
        forall|a: Color, b: Color| a != b ==> #[trigger] color_code(a) != #[trigger] color_code(b),
{
    reveal_strlit("31");
    reveal_strlit("32");
    reveal_strlit("33");
    reveal_strlit("36");
    reveal_strlit("37");
    reveal_strlit("90");
    assert forall|a: Color, b: Color| a != b implies #[trigger] color_code(a) != #[trigger] color_code(b) by {
        assert(color_code(a)[1] != color_code(b)[1] || color_code(a)[0] != color_code(b)[0]);
    }
}

/// A bold red span, such as a failing badge, is printed in bold red: `ESC[1;31m`,
/// its text, then a reset.
pub proof fn law_bold_red_is_printed_red(text: Seq<char>)
    ensures
        ansi_span(sv(text, bold(Color::Red))) == "\x1b[1;31m"@ + text + "\x1b[0m"@,
{
    reveal_strlit("1");
    reveal_strlit("31");
    reveal_strlit("1;31");
    reveal_strlit("\x1b[1;31m");
    reveal_strlit("\x1b[");
    reveal_strlit("m");
    let parts = sgr_parts(bold(Color::Red));
    assert(parts =~= seq!["1"@, "31"@]);
    assert(parts.drop_last() =~= seq!["1"@]);
    assert(join_semi(parts.drop_last()) == "1"@);
    assert(join_semi(parts) == join_semi(parts.drop_last()) + seq![';'] + "31"@);
    assert(join_semi(parts) =~= "1;31"@);
    assert("\x1b["@ + "1;31"@ + "m"@ =~= "\x1b[1;31m"@);
}

} // verus!

//! Rounded-box status rendering primitives: visible-width math (CJK-aware),
//! width-bounded truncation, compact uptime formatting, and a rounded box
//! renderer that pads on PLAIN text so ANSI-colored tokens still align.
use vstd::prelude::*;
use crossterm::style::Stylize;
use unicode_width::{UnicodeWidthChar, UnicodeWidthStr};
use crate::text::{chars_of, dec, extend_str, push_dec, string_of};

verus! {

// ---------------------------------------------------------------------------
// Widths, from unicode-width
// ---------------------------------------------------------------------------

/// The column width `unicode_width::UnicodeWidthStr::width` gives a string.
pub uninterp spec fn str_width(s: Seq<char>) -> usize;

/// The column width `unicode_width::UnicodeWidthChar::width` gives a
/// character (`None` for a control character).
pub uninterp spec fn char_width(c: char) -> Option<usize>;

/// Visible column width (CJK wide chars = 2). Pass PLAIN text (no ANSI).
///
/// Calls `UnicodeWidthStr::width`; the contract only names its result, which
/// depends on the text alone.
#[verifier::external_body]
pub fn display_width(s: &str) -> (w: usize)
    ensures
        w == str_width(s@),
{
    UnicodeWidthStr::width(s)
}

/// Calls `UnicodeWidthChar::width`; the contract only names its result,
/// which depends on the character alone.
#[verifier::external_body]
fn column_width(c: char) -> (w: Option<usize>)
    ensures
        w == char_width(c),
{
    UnicodeWidthChar::width(c)
}

// ---------------------------------------------------------------------------
// Truncation
// ---------------------------------------------------------------------------

pub open spec fn cols(c: char) -> nat {
    match char_width(c) {
        Some(w) => w as nat,
        None => 0,
    }
}

/// How many leading characters fit in `budget` columns once `used` are
/// taken: characters are kept until the first one that would overflow.
pub open spec fn fitting(s: Seq<char>, budget: nat, used: nat) -> nat
    decreases s.len(),
{
    if s.len() == 0 {
        0
    } else if used + cols(s[0]) > budget {
        0
    } else {
        1 + fitting(s.drop_first(), budget, used + cols(s[0]))
    }
}

pub open spec fn cols_sum(s: Seq<char>) -> nat
    decreases s.len(),
{
    if s.len() == 0 {
        0
    } else {
        cols(s[0]) + cols_sum(s.drop_first())
    }
}

pub open spec fn truncated(s: Seq<char>, max_cols: nat) -> Seq<char> {
    if str_width(s) <= max_cols {
        s
    } else if max_cols == 0 {
        seq![]
    } else {
        s.take(fitting(s, (max_cols - 1) as nat, 0) as int).push('…')
    }
}

proof fn lemma_fitting_step(s: Seq<char>, budget: nat, used: nat, i: int)
    requires
        0 <= i < s.len(),
        fitting(s, budget, used) >= i,
    ensures
        fitting(s, budget, used) == i + fitting(s.skip(i), budget, used + cols_sum(s.take(i))),
    decreases i,
{
    if i == 0 {
        assert(s.skip(0) =~= s);
        assert(s.take(0) =~= Seq::<char>::empty());
    } else {
        assert(s.drop_first().skip(i - 1) =~= s.skip(i));
        lemma_fitting_step(s.drop_first(), budget, used + cols(s[0]), i - 1);
        assert(s.take(i).drop_first() =~= s.drop_first().take(i - 1));
    }
}

/// Truncate to at most `max_cols` visible columns, appending '…' when cut.
pub fn truncate(s: &str, max_cols: usize) -> (r: String)
    ensures
        r@ == truncated(s@, max_cols as nat),
{
    if display_width(s) <= max_cols {
        let v = chars_of(s);
        return string_of(&v);
    }
    if max_cols == 0 {
        return String::new();
    }
    let budget = max_cols - 1;  // reserve one column for '…'
    let v = chars_of(s);
    let mut out: Vec<char> = Vec::new();
    let mut used: usize = 0;
    let mut i: usize = 0;
    let ghost sv = v@;
    assert(sv.skip(0) =~= sv);
    assert(out@ =~= sv.take(0));
    while i < v.len()
        invariant
            sv == v@,
            i <= v.len(),
            used <= budget,
            out@ == sv.take(i as int),
            fitting(sv, budget as nat, 0) == i + fitting(sv.skip(i as int), budget as nat, used as nat),
        ensures
            out@ == sv.take(fitting(sv, budget as nat, 0) as int),
        decreases v.len() - i,
    {
        let ch = v[i];
        let w = match column_width(ch) {
            Some(w) => w,
            None => 0,
        };
        let ghost rest = sv.skip(i as int);
        assert(rest[0] == ch);
        assert(rest.drop_first() =~= sv.skip(i + 1));
        if w > budget - used {
            assert(fitting(rest, budget as nat, used as nat) == 0);
            break;
        }
        out.push(ch);
        used = used + w;
        i = i + 1;
        assert(out@ =~= sv.take(i as int));
        if i == v.len() {
            assert(sv.skip(i as int) =~= Seq::<char>::empty());
        }
    }
    out.push('…');
    string_of(&out)
}

// ---------------------------------------------------------------------------
// Uptime
// ---------------------------------------------------------------------------

/// Compact human uptime: 45s, 3m12s, 2h5m, 1d3h.
pub open spec fn uptime_text(secs: nat) -> Seq<char> {
    if secs < 60 {
        dec(secs) + "s"@
    } else {
        let m = secs / 60;
        let s = secs % 60;
        if m < 60 {
            dec(m) + "m"@ + dec(s) + "s"@
        } else {
            let h = m / 60;
            let m2 = m % 60;
            if h < 24 {
                dec(h) + "h"@ + dec(m2) + "m"@
            } else {
                dec(h / 24) + "d"@ + dec(h % 24) + "h"@
            }
        }
    }
}

/// Compact human uptime: 45s, 3m12s, 2h5m, 1d3h.
pub fn format_uptime(secs: u64) -> (r: String)
    ensures
        r@ == uptime_text(secs as nat),
        secs < 60 ==> r@ == dec(secs as nat) + "s"@,
        60 <= secs < 3600 ==> r@ == dec((secs / 60) as nat) + "m"@ + dec((secs % 60) as nat) + "s"@,
        3600 <= secs < 86400 ==> r@ == dec((secs / 3600) as nat) + "h"@ + dec(((secs / 60) % 60) as nat)
            + "m"@,
        secs >= 86400 ==> r@ == dec((secs / 86400) as nat) + "d"@ + dec(((secs / 3600) % 24) as nat)
            + "h"@,
{
    proof {
        law_uptime_units(secs as nat);
    }
    let mut out: Vec<char> = Vec::new();
    if secs < 60 {
        push_dec(&mut out, secs);
        extend_str(&mut out, "s");
    } else {
        let m = secs / 60;
        let s = secs % 60;
        if m < 60 {
            push_dec(&mut out, m);
            extend_str(&mut out, "m");
            push_dec(&mut out, s);
            extend_str(&mut out, "s");
        } else {
            let h = m / 60;
            let m2 = m % 60;
            if h < 24 {
                push_dec(&mut out, h);
                extend_str(&mut out, "h");
                push_dec(&mut out, m2);
                extend_str(&mut out, "m");
            } else {
                push_dec(&mut out, h / 24);
                extend_str(&mut out, "d");
                push_dec(&mut out, h % 24);
                extend_str(&mut out, "h");
            }
        }
    }
    assert(out@ =~= uptime_text(secs as nat));
    string_of(&out)
}

// ---------------------------------------------------------------------------
// Cells
// ---------------------------------------------------------------------------

/// A rendered cell: `plain` drives width math, `display` is what's printed
/// (may carry ANSI). With color disabled the two are equal.
#[derive(Debug, PartialEq, Eq)]
pub struct Cell {
    pub plain: String,
    pub display: String,
}

pub struct CellModel {
    pub plain: Seq<char>,
    pub display: Seq<char>,
}

impl View for Cell {
    type V = CellModel;

    open spec fn view(&self) -> CellModel {
        CellModel { plain: self.plain@, display: self.display@ }
    }
}

impl Cell {
    /// Uncolored cell: display == plain.
    pub fn plain(s: &str) -> (c: Cell)
        ensures
            c@.plain == s@,
            c@.display == s@,
    {
        let v = chars_of(s);
        Cell { plain: string_of(&v), display: string_of(&v) }
    }

    /// Visible width of the cell (from its plain text).
    pub fn width(&self) -> (w: usize)
        ensures
            w == str_width(self@.plain),
    {
        display_width(self.plain.as_str())
    }
}

/// crossterm's SGR color parameter for the token: bright green (`Color::Green`)
/// for yes, bright red (`Color::Red`) for no.
pub open spec fn sgr_color(v: bool) -> Seq<char> {
    if v {
        "38;5;10"@
    } else {
        "38;5;9"@
    }
}

/// What crossterm writes for bold `text` in a foreground color: the color
/// sequence, the bold sequence, the text, the reset sequence.
pub open spec fn bold_in(color: Seq<char>, text: Seq<char>) -> Seq<char> {
    "\u{1b}["@ + color + "m\u{1b}[1m"@ + text + "\u{1b}[0m"@
}

/// `display` is `text` painted bold in the token's color; when the
/// environment sets `NO_COLOR` crossterm writes the color sequence with an
/// empty parameter, so either form may come back.
pub open spec fn painted(v: bool, text: Seq<char>, display: Seq<char>) -> bool {
    display == bold_in(sgr_color(v), text) || display == bold_in(seq![], text)
}

/// `text` in bold green, rendered by crossterm (`Stylize::green`, `bold`,
/// then `to_string`): crossterm's `PrintStyledContent` writes
/// `SetForegroundColor`, `SetAttributes`, the text and `ResetColor`.
/// Whether the color parameter is empty depends on the `NO_COLOR`
/// environment variable, which the contract leaves open.
#[verifier::external_body]
fn paint_yes(text: &str) -> (r: String)
    ensures
        painted(true, text@, r@),
{
    text.green().bold().to_string()
}

/// `text` in bold red, rendered by crossterm (`Stylize::red`, `bold`, then
/// `to_string`), as for `paint_yes`.
#[verifier::external_body]
fn paint_no(text: &str) -> (r: String)
    ensures
        painted(false, text@, r@),
{
    text.red().bold().to_string()
}

pub open spec fn yesno_word(v: bool) -> Seq<char> {
    if v {
        "yes"@
    } else {
        "no"@
    }
}

/// A yes/no token: yes = green bold, no = red bold (only when `use_color`).
pub fn yesno(v: bool, use_color: bool) -> (c: Cell)
    ensures
        c@.plain == yesno_word(v),
        !use_color ==> c@.display == yesno_word(v),
        use_color ==> painted(v, yesno_word(v), c@.display),
{
    let text = if v {
        "yes"
    } else {
        "no"
    };
    if !use_color {
        return Cell::plain(text);
    }
    let styled = if v {
        paint_yes(text)
    } else {
        paint_no(text)
    };
    let p = chars_of(text);
    Cell { plain: string_of(&p), display: styled }
}

pub open spec fn cell_models(v: Seq<Cell>) -> Seq<CellModel> {
    v.map_values(|c: Cell| c@)
}

pub open spec fn plains(cells: Seq<CellModel>) -> Seq<char>
    decreases cells.len(),
{
    if cells.len() == 0 {
        seq![]
    } else {
        plains(cells.drop_last()) + cells.last().plain
    }
}

pub open spec fn displays(cells: Seq<CellModel>) -> Seq<char>
    decreases cells.len(),
{
    if cells.len() == 0 {
        seq![]
    } else {
        displays(cells.drop_last()) + cells.last().display
    }
}

/// The cells joined into one.
pub open spec fn joined(cells: Seq<CellModel>) -> CellModel {
    CellModel { plain: plains(cells), display: displays(cells) }
}

/// Concatenate cells into one line-cell (plain and display joined in order).
pub fn join(cells: &[Cell]) -> (c: Cell)
    ensures
        c@ == joined(cell_models(cells@)),
{
    let mut p: Vec<char> = Vec::new();
    let mut d: Vec<char> = Vec::new();
    let mut i: usize = 0;
    while i < cells.len()
        invariant
            i <= cells.len(),
            p@ == plains(cell_models(cells@).take(i as int)),
            d@ == displays(cell_models(cells@).take(i as int)),
        decreases cells.len() - i,
    {
        extend_str(&mut p, cells[i].plain.as_str());
        extend_str(&mut d, cells[i].display.as_str());
        assert(cell_models(cells@).take(i + 1).drop_last() =~= cell_models(cells@).take(i as int));
        i = i + 1;
    }
    assert(cell_models(cells@).take(i as int) =~= cell_models(cells@));
    Cell { plain: string_of(&p), display: string_of(&d) }
}

// ---------------------------------------------------------------------------
// Boxes
// ---------------------------------------------------------------------------

pub open spec fn repeat(c: char, n: nat) -> Seq<char> {
    Seq::new(n, |i: int| c)
}

/// `a - b`, or 0 when `b > a`.
pub open spec fn monus(a: nat, b: nat) -> nat {
    if a >= b {
        (a - b) as nat
    } else {
        0
    }
}

pub open spec fn box_top(title: Seq<char>, title_width: nat, inner: nat) -> Seq<char> {
    "╭─ "@ + title + " "@ + repeat('─', monus(inner, title_width + 1)) + "╮\n"@
}

pub open spec fn box_row(display: Seq<char>, width: nat, inner: nat) -> Seq<char> {
    "│ "@ + display + repeat(' ', monus(inner, width)) + " │\n"@
}

pub open spec fn box_bottom(inner: nat) -> Seq<char> {
    "╰"@ + repeat('─', inner + 2) + "╯\n"@
}

pub open spec fn box_rows(lines: Seq<CellModel>, inner: nat) -> Seq<char>
    decreases lines.len(),
{
    if lines.len() == 0 {
        seq![]
    } else {
        box_rows(lines.drop_last(), inner) + box_row(
            lines.last().display,
            str_width(lines.last().plain) as nat,
            inner,
        )
    }
}

pub open spec fn box_text(title: Seq<char>, lines: Seq<CellModel>, inner: nat) -> Seq<char> {
    box_top(title, str_width(title) as nat, inner) + box_rows(lines, inner) + box_bottom(inner)
}

fn push_repeat(out: &mut Vec<char>, c: char, n: usize)
    ensures
        final(out)@ == old(out)@ + repeat(c, n as nat),
{
    let mut i: usize = 0;
    while i < n
        invariant
            i <= n,
            out@ == old(out)@ + repeat(c, i as nat),
        decreases n - i,
    {
        out.push(c);
        i = i + 1;
        assert(out@ =~= old(out)@ + repeat(c, i as nat));
    }
}

/// Render a rounded box. `inner` is the content width between the side
/// paddings; the caller must ensure `inner >= display_width(title) + 1` and
/// `inner >= max line width`. Total visible width of every line is `inner + 4`.
pub fn render_box(title: &str, lines: &[Cell], inner: usize) -> (r: String)
    requires
        inner <= usize::MAX - 2,
    ensures
        r@ == box_text(title@, cell_models(lines@), inner as nat),
{
    let mut out: Vec<char> = Vec::new();
    // Top: "╭─ title " + dashes + "╮"
    extend_str(&mut out, "╭─ ");
    extend_str(&mut out, title);
    extend_str(&mut out, " ");
    let tw = display_width(title);
    let dashes = if tw < usize::MAX && inner >= tw + 1 {
        inner - (tw + 1)
    } else {
        0
    };
    push_repeat(&mut out, '─', dashes);
    extend_str(&mut out, "╮\n");
    let ghost top = out@;
    assert(top =~= box_top(title@, str_width(title@) as nat, inner as nat));
    // Content lines.
    let mut i: usize = 0;
    while i < lines.len()
        invariant
            i <= lines.len(),
            out@ == top + box_rows(cell_models(lines@).take(i as int), inner as nat),
        decreases lines.len() - i,
    {
        let line = &lines[i];
        let w = line.width();
        let pad = if inner >= w {
            inner - w
        } else {
            0
        };
        let ghost before = out@;
        extend_str(&mut out, "│ ");
        extend_str(&mut out, line.display.as_str());
        push_repeat(&mut out, ' ', pad);
        extend_str(&mut out, " │\n");
        assert(cell_models(lines@).take(i + 1).drop_last() =~= cell_models(lines@).take(i as int));
        assert(out@ =~= before + box_row(line@.display, w as nat, inner as nat));
        i = i + 1;
    }
    assert(cell_models(lines@).take(i as int) =~= cell_models(lines@));
    // Bottom.
    let ghost mid = out@;
    extend_str(&mut out, "╰");
    push_repeat(&mut out, '─', inner + 2);
    extend_str(&mut out, "╯\n");
    assert(out@ =~= mid + box_bottom(inner as nat));
    string_of(&out)
}

// ---------------------------------------------------------------------------
// Laws
// ---------------------------------------------------------------------------

/// Columns of the top border: `╭─ ` (3), the title, a space, the dashes, `╮`.
pub open spec fn top_columns(title_width: nat, inner: nat) -> nat {
    3 + title_width + 1 + monus(inner, title_width + 1) + 1
}

/// Columns of a content row: `│ `, the cell, its padding, ` │`.
pub open spec fn row_columns(width: nat, inner: nat) -> nat {
    2 + width + monus(inner, width) + 2
}

/// Columns of the bottom border: `╰`, `inner + 2` dashes, `╯`.
pub open spec fn bottom_columns(inner: nat) -> nat {
    1 + (inner + 2) + 1
}

/// Every border glyph is one column wide, so when the title fits
/// (`inner >= title width + 1`) and no cell is wider than `inner`, the top
/// border, each row and the bottom border of a box all span `inner + 4`
/// columns: the padding and the dashes make up the difference exactly.
pub proof fn law_box_lines_align(title_width: nat, widths: Seq<nat>, inner: nat)
    requires
        inner >= title_width + 1,
        forall|i: int| 0 <= i < widths.len() ==> widths[i] <= inner,
    ensures
        top_columns(title_width, inner) == inner + 4,
        bottom_columns(inner) == inner + 4,
        forall|i: int| 0 <= i < widths.len() ==> row_columns(#[trigger] widths[i], inner) == inner + 4,
{
}

/// Each padding is exactly the room a row has left, and the dashes of the
/// top border exactly the room the title leaves.
pub proof fn law_box_pieces(title: Seq<char>, inner: nat)
    ensures
        box_top(title, str_width(title) as nat, inner).len() == 3 + title.len() + 1 + monus(
            inner,
            str_width(title) as nat + 1,
        ) + 2,
        box_bottom(inner).len() == inner + 5,
{
    reveal_strlit("╭─ ");
    reveal_strlit(" ");
    reveal_strlit("╮\n");
    reveal_strlit("╰");
    reveal_strlit("╯\n");
}

/// Each content row of a box is `│ `, the cell's display text, padding up
/// to `inner` counted on the cell's plain text, and ` │`: the display text
/// (which may carry color codes) never changes the padding, so a cell whose
/// plain text is at most `inner` wide is padded to exactly `inner` columns.
pub proof fn law_rows_pad_on_plain(lines: Seq<CellModel>, inner: nat)
    ensures
        forall|i: int|
            0 <= i < lines.len() ==> #[trigger] box_rows(lines.take(i + 1), inner) == box_rows(
                lines.take(i),
                inner,
            ) + "│ "@ + lines[i].display + repeat(' ', monus(inner, str_width(lines[i].plain) as nat))
                + " │\n"@,
        forall|i: int|
            0 <= i < lines.len() && str_width(#[trigger] lines[i].plain) <= inner ==> str_width(
                lines[i].plain,
            ) + monus(inner, str_width(lines[i].plain) as nat) == inner,
{
    assert forall|i: int| 0 <= i < lines.len() implies #[trigger] box_rows(lines.take(i + 1), inner)
        == box_rows(lines.take(i), inner) + "│ "@ + lines[i].display + repeat(
        ' ',
        monus(inner, str_width(lines[i].plain) as nat),
    ) + " │\n"@ by {
        assert(lines.take(i + 1).drop_last() =~= lines.take(i));
        assert(lines.take(i + 1).last() == lines[i]);
    }
}

/// Uptime in its largest two units: seconds under a minute, minutes and
/// seconds under an hour, hours and minutes under a day, then days and
/// hours; the second unit is always below the size of the first.
pub proof fn law_uptime_units(secs: nat)
    ensures
        secs < 60 ==> uptime_text(secs) == dec(secs) + "s"@,
        60 <= secs < 3600 ==> uptime_text(secs) == dec(secs / 60) + "m"@ + dec(secs % 60) + "s"@,
        3600 <= secs < 86400 ==> uptime_text(secs) == dec(secs / 3600) + "h"@ + dec((secs / 60) % 60)
            + "m"@,
        secs >= 86400 ==> uptime_text(secs) == dec(secs / 86400) + "d"@ + dec((secs / 3600) % 24)
            + "h"@ && (secs / 3600) % 24 < 24,
{
    let m = secs / 60;
    let h = m / 60;
    vstd::arithmetic::div_mod::lemma_div_denominator(secs as int, 60, 60);
    assert(h == secs / 3600);
    vstd::arithmetic::div_mod::lemma_div_denominator(secs as int, 3600, 24);
    assert(h / 24 == secs / 86400);
    assert(m < 60 <==> secs < 3600);
    assert(h < 24 <==> secs < 86400);
}

/// Text that already fits is kept whole; otherwise the kept characters take
/// no more than `max_cols - 1` columns, leaving one for the ellipsis.
pub proof fn law_truncate_fits(s: Seq<char>, max_cols: nat)
    requires
        str_width(s) > max_cols,
        max_cols > 0,
    ensures
        cols_sum(s.take(fitting(s, (max_cols - 1) as nat, 0) as int)) <= max_cols - 1,
        truncated(s, max_cols).last() == '…',
{
    lemma_fitting_budget(s, (max_cols - 1) as nat, 0);
}

proof fn lemma_fitting_budget(s: Seq<char>, budget: nat, used: nat)
    requires
        used <= budget,
    ensures
        used + cols_sum(s.take(fitting(s, budget, used) as int)) <= budget,
        fitting(s, budget, used) <= s.len(),
    decreases s.len(),
{
    if s.len() == 0 {
        assert(s.take(0) =~= Seq::<char>::empty());
    } else if used + cols(s[0]) > budget {
        assert(s.take(0) =~= Seq::<char>::empty());
    } else {
        lemma_fitting_budget(s.drop_first(), budget, used + cols(s[0]));
        let k = fitting(s, budget, used);
        assert(s.take(k as int).drop_first() =~= s.drop_first().take(k - 1));
    }
}

} // verus!

//! The decisions of a foreground session: the label it registers with the
//! daemon, the progress line sized to the terminal, and the key that ends a
//! timer early.
use vstd::prelude::*;
use crate::progress::{
    bar_text, bar_width, duration_text, filled_cells, format_progress_line, percent,
    progress_snapshot, remaining_secs,
};
use crate::text::{chars_of, dec, extend_str, sanitize, sanitize_chars, string_of};
use crate::ui::monus;

verus! {

/// `espresso` followed by each argument, each after one space.
pub open spec fn command_line(args: Seq<Seq<char>>) -> Seq<char>
    decreases args.len(),
{
    if args.len() == 0 {
        "espresso"@
    } else {
        command_line(args.drop_last()) + " "@ + args.last()
    }
}

pub open spec fn arg_views(args: Seq<String>) -> Seq<Seq<char>> {
    args.map_values(|a: String| a@)
}

/// The invocation as the user typed it, with `espresso` in place of the
/// program path (`espresso -- sleep 100`, `espresso -t 1800`), and line
/// breaks turned into spaces so that it stays on one line of the protocol.
/// `args` are the arguments after the program path.
pub fn invocation_label(args: &Vec<String>) -> (r: String)
    ensures
        r@ == sanitize(command_line(arg_views(args@))),
{
    let mut out: Vec<char> = chars_of("espresso");
    let mut i: usize = 0;
    while i < args.len()
        invariant
            i <= args.len(),
            out@ == command_line(arg_views(args@).take(i as int)),
        decreases args.len() - i,
    {
        extend_str(&mut out, " ");
        extend_str(&mut out, args[i].as_str());
        let ghost next = arg_views(args@).take(i + 1);
        assert(next.drop_last() =~= arg_views(args@).take(i as int));
        i = i + 1;
    }
    assert(arg_views(args@).take(i as int) =~= arg_views(args@));
    let clean = sanitize_chars(&out);
    string_of(&clean)
}

/// The characters taken by everything but the bar: two spaces, the
/// percentage, two spaces, the time remaining.
pub open spec fn meta_width(elapsed: nat, total: nat) -> nat {
    2 + (dec(percent(elapsed, total)) + "%"@).len() + 2 + (duration_text(
        remaining_secs(elapsed, total),
    ) + " remaining"@).len()
}

/// The bar gets what the terminal has left after the labels, at least one
/// cell.
pub open spec fn timer_bar_width(elapsed: nat, total: nat, term_width: nat) -> nat {
    let w = monus(term_width, meta_width(elapsed, total));
    if w > 1 {
        w
    } else {
        1
    }
}

/// The progress line for a bar of `width` cells.
pub open spec fn progress_line_text(elapsed: nat, total: nat, width: nat) -> Seq<char> {
    bar_text(filled_cells(elapsed, total, width), bar_width(width)) + "  "@ + dec(
        percent(elapsed, total),
    ) + "%"@ + "  "@ + duration_text(remaining_secs(elapsed, total)) + " remaining"@
}

/// The timer's progress line for a terminal `term_width` columns wide: the
/// labels at their natural width and the bar taking the rest.
pub fn timer_line(elapsed_secs: u64, total_secs: u64, term_width: usize) -> (r: String)
    ensures
        r@ == progress_line_text(
            elapsed_secs as nat,
            total_secs as nat,
            timer_bar_width(elapsed_secs as nat, total_secs as nat, term_width as nat),
        ),
{
    let sample = progress_snapshot(elapsed_secs, total_secs, 1);
    let pct = chars_of(sample.percentage_label.as_str());
    let rem = chars_of(sample.remaining_label.as_str());
    let meta: u128 = 2 + pct.len() as u128 + 2 + rem.len() as u128;
    let bar: usize = if (term_width as u128) > meta + 1 {
        (term_width as u128 - meta) as usize
    } else {
        1
    };
    let snapshot = progress_snapshot(elapsed_secs, total_secs, bar);
    assert(bar as nat == timer_bar_width(elapsed_secs as nat, total_secs as nat, term_width as nat));
    let line = format_progress_line(&snapshot);
    assert(line@ =~= progress_line_text(elapsed_secs as nat, total_secs as nat, bar as nat));
    line
}

/// Whether a key event ends the timer: a press of `q` or `Q`.
pub fn is_quit_key(pressed: bool, key: Option<char>) -> (r: bool)
    ensures
        r == (pressed && (key == Some('q') || key == Some('Q'))),
{
    match key {
        Some(c) => pressed && (c == 'q' || c == 'Q'),
        None => false,
    }
}

/// Where the terminal has room for the labels and at least one cell of
/// bar, the progress line fills it exactly.
pub proof fn law_timer_line_fills(elapsed: nat, total: nat, term_width: nat)
    requires
        term_width > meta_width(elapsed, total),
    ensures
        progress_line_text(elapsed, total, timer_bar_width(elapsed, total, term_width)).len()
            == term_width,
{
    reveal_strlit("  ");
    let w = timer_bar_width(elapsed, total, term_width);
    assert(w == term_width - meta_width(elapsed, total));
    assert(bar_width(w) == w);
}

} // verus!

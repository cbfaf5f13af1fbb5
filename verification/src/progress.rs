//! The single-line progress bar of a timer session: a bar of `█` (elapsed)
//! and `░` (remaining), the percentage elapsed, and the time remaining.
//!
//! Ratios are rounded half away from zero, computed exactly on integers:
//! the shown percentage and the filled cells are the exact ratios rounded,
//! deliberately with no floating-point step, so a ratio that is exactly
//! half way (1 s of 6 s on 3 cells is 0.5 cell) always rounds up.
use vstd::prelude::*;
use crate::text::{dec, extend_str, push_dec, string_of};

verus! {

#[derive(Debug, Clone, PartialEq, Eq)]
pub struct ProgressSnapshot {
    pub bar: String,
    pub percentage_label: String,
    pub remaining_label: String,
}

/// `a / b` rounded half away from zero (for `b > 0`).
pub open spec fn round_div(a: nat, b: nat) -> nat
    recommends
        b > 0,
{
    (2 * a + b) / (2 * b)
}

pub open spec fn bar_width(width: nat) -> nat {
    if width == 0 {
        1
    } else {
        width
    }
}

/// Elapsed time, capped at the total.
pub open spec fn capped(elapsed: nat, total: nat) -> nat {
    if elapsed <= total {
        elapsed
    } else {
        total
    }
}

/// The percentage shown: `100` for a zero total.
pub open spec fn percent(elapsed: nat, total: nat) -> nat {
    if total == 0 {
        100
    } else {
        round_div(100 * capped(elapsed, total), total)
    }
}

/// How many of the `width` cells are filled.
pub open spec fn filled_cells(elapsed: nat, total: nat, width: nat) -> nat {
    let w = bar_width(width);
    let f = if total == 0 {
        w
    } else {
        round_div(capped(elapsed, total) * w, total)
    };
    if f <= w {
        f
    } else {
        w
    }
}

pub open spec fn bar_text(filled: nat, width: nat) -> Seq<char> {
    Seq::new(width, |i: int| if i < filled { '█' } else { '░' })
}

/// `1h 1m 1s`, `1m 5s` or `0s`, by the largest nonzero unit.
pub open spec fn duration_text(secs: nat) -> Seq<char> {
    let h = secs / 3600;
    let m = (secs % 3600) / 60;
    let s = secs % 60;
    if h > 0 {
        dec(h) + "h "@ + dec(m) + "m "@ + dec(s) + "s"@
    } else if m > 0 {
        dec(m) + "m "@ + dec(s) + "s"@
    } else {
        dec(s) + "s"@
    }
}

pub open spec fn remaining_secs(elapsed: nat, total: nat) -> nat {
    (total - capped(elapsed, total)) as nat
}

fn format_duration(secs: u64, out: &mut Vec<char>)
    ensures
        final(out)@ == old(out)@ + duration_text(secs as nat),
{
    let hours = secs / 3600;
    let minutes = (secs % 3600) / 60;
    let seconds = secs % 60;
    if hours > 0 {
        push_dec(out, hours);
        extend_str(out, "h ");
        push_dec(out, minutes);
        extend_str(out, "m ");
        push_dec(out, seconds);
        extend_str(out, "s");
    } else if minutes > 0 {
        push_dec(out, minutes);
        extend_str(out, "m ");
        push_dec(out, seconds);
        extend_str(out, "s");
    } else {
        push_dec(out, seconds);
        extend_str(out, "s");
    }
    assert(out@ =~= old(out)@ + duration_text(secs as nat));
}

proof fn lemma_round_div(a: nat, b: nat, q: nat, r: nat)
    requires
        b > 0,
        q == a / b,
        r == a % b,
    ensures
        round_div(a, b) == if r >= b - r {
            q + 1
        } else {
            q
        },
{
    assert(a == q * b + r) by (nonlinear_arith)
        requires
            b > 0,
            q == a / b,
            r == a % b,
    ;
    assert(r < b) by (nonlinear_arith)
        requires
            b > 0,
            r == a % b,
    ;
    if r >= b - r {
        assert((2 * a + b) / (2 * b) == q + 1) by (nonlinear_arith)
            requires
                a == q * b + r,
                r < b,
                2 * r >= b,
                b > 0,
        ;
    } else {
        assert((2 * a + b) / (2 * b) == q) by (nonlinear_arith)
            requires
                a == q * b + r,
                r < b,
                2 * r < b,
                b > 0,
        ;
    }
}

/// `a / b` rounded half away from zero.
fn rounded_ratio(a: u128, b: u128) -> (r: u128)
    requires
        b > 0,
    ensures
        r == round_div(a as nat, b as nat),
{
    let q = a / b;
    let rem = a % b;
    proof {
        lemma_round_div(a as nat, b as nat, q as nat, rem as nat);
        assert(q <= a) by (nonlinear_arith)
            requires
                b > 0,
                q == a / b,
        ;
    }
    if rem >= b - rem {
        assert(q < u128::MAX) by (nonlinear_arith)
            requires
                b > 0,
                q == a / b,
                rem == a % b,
                rem >= b - rem,
                a <= u128::MAX,
        ;
        q + 1
    } else {
        q
    }
}

pub fn progress_snapshot(elapsed_secs: u64, total_secs: u64, width: usize) -> (p: ProgressSnapshot)
    ensures
        ({
            let e = elapsed_secs as nat;
            let t = total_secs as nat;
            &&& p.bar@ == bar_text(filled_cells(e, t, width as nat), bar_width(width as nat))
            &&& p.percentage_label@ == dec(percent(e, t)) + "%"@
            &&& p.remaining_label@ == duration_text(remaining_secs(e, t)) + " remaining"@
        }),
        elapsed_secs < total_secs && total_secs - elapsed_secs >= 3600 ==> ({
            let r = total_secs - elapsed_secs;
            p.remaining_label@ == dec((r / 3600) as nat) + "h "@ + dec(((r % 3600) / 60) as nat) + "m "@
                + dec((r % 60) as nat) + "s"@ + " remaining"@
        }),
{
    proof {
        law_remaining_label_units(elapsed_secs as nat, total_secs as nat);
    }
    let width = if width == 0 {
        1
    } else {
        width
    };
    let elapsed = if elapsed_secs <= total_secs {
        elapsed_secs
    } else {
        total_secs
    };
    let percentage: u128 = if total_secs == 0 {
        100
    } else {
        rounded_ratio(100 * elapsed as u128, total_secs as u128)
    };
    let filled: usize = if total_secs == 0 {
        width
    } else {
        proof {
            assert((elapsed as u128) * (width as u128) <= u128::MAX) by (nonlinear_arith)
                requires
                    elapsed <= u64::MAX,
                    width <= usize::MAX,
                    usize::MAX <= u64::MAX,
            ;
        }
        let f = rounded_ratio(elapsed as u128 * width as u128, total_secs as u128);
        if f <= width as u128 {
            f as usize
        } else {
            width
        }
    };
    proof {
        if total_secs > 0 {
            assert(percentage <= 100) by {
                assert(round_div(100 * (elapsed as nat), total_secs as nat) <= 100) by (
                nonlinear_arith)
                    requires
                        elapsed <= total_secs,
                        total_secs > 0,
                ;
            }
        }
    }
    let ghost w = width as nat;
    let mut bar: Vec<char> = Vec::new();
    let mut index: usize = 0;
    while index < width
        invariant
            index <= width,
            bar@ == bar_text(filled as nat, w).take(index as int),
            w == width as nat,
        decreases width - index,
    {
        if index < filled {
            bar.push('█');
        } else {
            bar.push('░');
        }
        index = index + 1;
        assert(bar@ =~= bar_text(filled as nat, w).take(index as int));
    }
    assert(bar_text(filled as nat, w).take(width as int) =~= bar_text(filled as nat, w));
    let mut pct: Vec<char> = Vec::new();
    push_dec(&mut pct, percentage as u64);
    extend_str(&mut pct, "%");
    let mut rem: Vec<char> = Vec::new();
    format_duration(total_secs - elapsed, &mut rem);
    extend_str(&mut rem, " remaining");
    assert(pct@ =~= dec(percent(elapsed_secs as nat, total_secs as nat)) + "%"@);
    assert(rem@ =~= duration_text(remaining_secs(elapsed_secs as nat, total_secs as nat))
        + " remaining"@);
    ProgressSnapshot {
        bar: string_of(&bar),
        percentage_label: string_of(&pct),
        remaining_label: string_of(&rem),
    }
}

/// `<bar>  <percentage>  <remaining>` on one line.
pub fn format_progress_line(snapshot: &ProgressSnapshot) -> (line: String)
    ensures
        line@ == snapshot.bar@ + "  "@ + snapshot.percentage_label@ + "  "@
            + snapshot.remaining_label@,
{
    let mut out: Vec<char> = Vec::new();
    extend_str(&mut out, snapshot.bar.as_str());
    extend_str(&mut out, "  ");
    extend_str(&mut out, snapshot.percentage_label.as_str());
    extend_str(&mut out, "  ");
    extend_str(&mut out, snapshot.remaining_label.as_str());
    string_of(&out)
}

// ---------------------------------------------------------------------------
// Laws
// ---------------------------------------------------------------------------

/// Once the elapsed time reaches the total, the bar is full, the percentage
/// is 100 and nothing remains.
pub proof fn law_complete_at_total(elapsed: nat, total: nat, width: nat)
    requires
        elapsed >= total,
    ensures
        filled_cells(elapsed, total, width) == bar_width(width),
        percent(elapsed, total) == 100,
        remaining_secs(elapsed, total) == 0,
{
    if total > 0 {
        let w = bar_width(width);
        assert(round_div(total * w, total) == w) by (nonlinear_arith)
            requires
                total > 0,
        ;
        assert(round_div(100 * total, total) == 100) by (nonlinear_arith)
            requires
                total > 0,
        ;
    }
}

/// The bar never shrinks and the percentage never drops as time passes.
pub proof fn law_progress_monotone(e1: nat, e2: nat, total: nat, width: nat)
    requires
        e1 <= e2,
    ensures
        filled_cells(e1, total, width) <= filled_cells(e2, total, width),
        percent(e1, total) <= percent(e2, total),
        remaining_secs(e2, total) <= remaining_secs(e1, total),
{
    if total > 0 {
        let w = bar_width(width);
        let c1 = capped(e1, total);
        let c2 = capped(e2, total);
        assert(c1 <= c2);
        assert(round_div(c1 * w, total) <= round_div(c2 * w, total)) by (nonlinear_arith)
            requires
                c1 <= c2,
                total > 0,
        ;
        assert(round_div(100 * c1, total) <= round_div(100 * c2, total)) by (nonlinear_arith)
            requires
                c1 <= c2,
                total > 0,
        ;
    }
}

/// The bar always has exactly `max(width, 1)` cells.
pub proof fn law_bar_width(elapsed: nat, total: nat, width: nat)
    ensures
        bar_text(filled_cells(elapsed, total, width), bar_width(width)).len() == if width == 0 {
            1
        } else {
            width
        },
{
}

/// The time remaining, in its largest units: hours, minutes and seconds
/// from an hour on, minutes and seconds from a minute on, else seconds;
/// the minutes and seconds shown are always below 60.
pub proof fn law_remaining_label_units(elapsed: nat, total: nat)
    ensures
        ({
            let r: int = if elapsed <= total {
                total - elapsed
            } else {
                0
            };
            let label = duration_text(remaining_secs(elapsed, total)) + " remaining"@;
            &&& r >= 3600 ==> label == dec((r / 3600) as nat) + "h "@ + dec(((r % 3600) / 60) as nat)
                + "m "@ + dec((r % 60) as nat) + "s"@ + " remaining"@
            &&& 60 <= r < 3600 ==> label == dec((r / 60) as nat) + "m "@ + dec((r % 60) as nat) + "s"@
                + " remaining"@
            &&& r < 60 ==> label == dec(r as nat) + "s"@ + " remaining"@
            &&& (r % 3600) / 60 < 60 && r % 60 < 60
        }),
{
}

} // verus!

//! The two demonstration tasks: each round writes a numbered line to the
//! serial port and to the screen, then the task sleeps for its period.
use vstd::prelude::*;
use crate::device::serial::{wire_bytes, print, print_usize};
use crate::text::dec_digits;
use crate::ui::terminal::{Terminal, put_chars, byte_chars, lemma_put_chars_concat};
use vstd::string::StringSliceAdditionalSpecFns;

verus! {

/// Milliseconds task A sleeps between rounds.
pub const TASK_A_PERIOD_MS: u64 = 500;
/// Milliseconds task B sleeps between rounds.
pub const TASK_B_PERIOD_MS: u64 = 700;

/// The screen line of round `count` of a task whose line starts with `head`.
pub open spec fn round_text(head: Seq<char>, count: u32) -> Seq<char> {
    head + byte_chars(dec_digits(count as nat)) + ")\n"@
}

/// The serial line of round `count` of a task whose line starts with `head`.
pub open spec fn round_log(head: Seq<u8>, count: u32) -> Seq<u8> {
    wire_bytes(head) + dec_digits(count as nat) + wire_bytes("\n".spec_bytes())
}

/// Writes one round's line: `head`, the count in decimal, `)` and a newline.
fn write_round(term: &mut Terminal, head: &str, count: u32)
    requires
        old(term).wf(),
    ensures
        final(term).wf(),
        final(term).geom() == old(term).geom(),
        final(term).screen() == put_chars(old(term).geom(), old(term).screen(), round_text(head@, count)),
{
    let ghost g = term.geom();
    let ghost s0 = term.screen();
    term.print(head);
    term.print_usize(count as usize);
    term.print(")\n");
    proof {
        lemma_put_chars_concat(g, s0, head@, byte_chars(dec_digits(count as nat)));
        lemma_put_chars_concat(g, s0, head@ + byte_chars(dec_digits(count as nat)), ")\n"@);
    }
}

/// The serial bytes of one round: `head`, the count in decimal, a newline.
fn log_round(head: &str, count: u32) -> (r: Vec<u8>)
    ensures
        r@ == round_log(head.spec_bytes(), count),
{
    let mut out = print(head);
    let mut digits = print_usize(count as usize);
    out.append(&mut digits);
    let mut nl = print("\n");
    out.append(&mut nl);
    out
}

/// Round `count` of task A: writes `Process A (count=N)` on the screen and
/// returns the serial line `[task_a] tickN`. The task then sleeps
/// `TASK_A_PERIOD_MS` milliseconds and goes on with `count + 1`.
pub fn task_a(term: &mut Terminal, count: u32) -> (r: Vec<u8>)
    requires
        old(term).wf(),
    ensures
        final(term).wf(),
        final(term).geom() == old(term).geom(),
        final(term).screen() == put_chars(old(term).geom(), old(term).screen(), round_text("Process A (count="@, count)),
        r@ == round_log("[task_a] tick".spec_bytes(), count),
{
    let log = log_round("[task_a] tick", count);
    write_round(term, "Process A (count=", count);
    log
}

/// Round `count` of task B: writes `Process B (count=N)` on the screen and
/// returns the serial line `[task_b] tickN`. The task then sleeps
/// `TASK_B_PERIOD_MS` milliseconds and goes on with `count + 1`.
pub fn task_b(term: &mut Terminal, count: u32) -> (r: Vec<u8>)
    requires
        old(term).wf(),
    ensures
        final(term).wf(),
        final(term).geom() == old(term).geom(),
        final(term).screen() == put_chars(old(term).geom(), old(term).screen(), round_text("Process B (count="@, count)),
        r@ == round_log("[task_b] tick".spec_bytes(), count),
{
    let log = log_round("[task_b] tick", count);
    write_round(term, "Process B (count=", count);
    log
}

} // verus!

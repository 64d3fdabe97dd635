//! What the kernel shows when it panics.
use vstd::prelude::*;
use crate::device::serial::{wire_bytes, print, print_usize};
use crate::text::dec_digits;
use crate::ui::terminal::{Terminal, Screen, Geometry, put_chars, lemma_put_chars_concat, COLOR_BG, COLOR_FG, COLOR_PANIC};
use vstd::string::StringSliceAdditionalSpecFns;

verus! {

/// The serial report of a panic at `location` (file and line), if known.
pub open spec fn panic_log(location: Option<(Seq<u8>, u32)>) -> Seq<u8> {
    wire_bytes("\n!!! KERNEL PANIC !!!\n".spec_bytes()) + match location {
        Some((file, line)) => wire_bytes("at: ".spec_bytes()) + wire_bytes(file) + wire_bytes(
            ":".spec_bytes(),
        ) + dec_digits(line as nat) + wire_bytes("\n".spec_bytes()),
        None => Seq::<u8>::empty(),
    }
}

/// The screen after the panic notice: the heading in the panic colour, then
/// in the normal colours the file of the panic, if known.
pub open spec fn panic_shown(g: Geometry, s: Screen, file: Option<Seq<char>>) -> Screen {
    let s1 = put_chars(g, Screen { fg: COLOR_PANIC, bg: COLOR_BG, ..s }, "\nKERNEL PANIC\n"@);
    let s2 = Screen { fg: COLOR_FG, bg: COLOR_BG, ..s1 };
    match file {
        Some(f) => put_chars(g, s2, "at: "@ + f + "\n"@),
        None => s2,
    }
}

/// The bytes the serial port gets when the kernel panics at `location`.
pub fn panic_serial(location: Option<(&str, u32)>) -> (r: Vec<u8>)
    ensures
        r@ == panic_log(
            match location {
                Some((f, l)) => Some((f.spec_bytes(), l)),
                None => None,
            },
        ),
{
    let mut out = print("\n!!! KERNEL PANIC !!!\n");
    match location {
        Some((file, line)) => {
            let mut p = print("at: ");
            out.append(&mut p);
            let mut p = print(file);
            out.append(&mut p);
            let mut p = print(":");
            out.append(&mut p);
            let mut p = print_usize(line as usize);
            out.append(&mut p);
            let mut p = print("\n");
            out.append(&mut p);
        },
        None => {},
    }
    out
}

/// Shows the panic notice, and the file of the panic if known.
pub fn panic_screen(term: &mut Terminal, file: Option<&str>)
    requires
        old(term).wf(),
    ensures
        final(term).wf(),
        final(term).geom() == old(term).geom(),
        final(term).screen() == panic_shown(
            old(term).geom(),
            old(term).screen(),
            match file {
                Some(f) => Some(f@),
                None => None,
            },
        ),
{
    let ghost g = term.geom();
    term.set_color(COLOR_PANIC, COLOR_BG);
    term.print("\nKERNEL PANIC\n");
    term.set_color(COLOR_FG, COLOR_BG);
    match file {
        Some(f) => {
            let ghost s2 = term.screen();
            term.print("at: ");
            term.print(f);
            term.print("\n");
            proof {
                lemma_put_chars_concat(g, s2, "at: "@, f@);
                lemma_put_chars_concat(g, s2, "at: "@ + f@, "\n"@);
            }
        },
        None => {},
    }
}

} // verus!

//! The interactive kernel shell: line editing, command parsing and the
//! output of each command.
use vstd::prelude::*;
use crate::ui::terminal::{
    Terminal, Geometry, Screen, put_char, put_chars, backspaced, byte_chars, cleared, lemma_put_chars_concat,
};
use crate::interrupt::pit::TICKS_PER_SECOND;
use crate::text::{dec_digits, dec_digit, hex16, hex_digit, nibble};

verus! {

/// Bytes the line buffer can hold (one less is usable).
pub const CMD_BUF_SIZE: usize = 256;

// ---------------------------------------------------------------- text

pub open spec fn is_space(b: u8) -> bool {
    b == 32u8
}

/// `s` without leading spaces.
pub open spec fn trim_start(s: Seq<u8>) -> Seq<u8>
    decreases s.len(),
{
    if s.len() > 0 && is_space(s[0]) {
        trim_start(s.drop_first())
    } else {
        s
    }
}

/// `s` without trailing spaces.
pub open spec fn trim_end(s: Seq<u8>) -> Seq<u8>
    decreases s.len(),
{
    if s.len() > 0 && is_space(s.last()) {
        trim_end(s.drop_last())
    } else {
        s
    }
}

/// `s` without leading or trailing spaces.
pub open spec fn trimmed(s: Seq<u8>) -> Seq<u8> {
    trim_end(trim_start(s))
}

/// Index of the first space in `s`.
pub open spec fn first_space(s: Seq<u8>, i: int) -> Option<int>
    decreases s.len() - i,
{
    if i < 0 || i >= s.len() {
        None
    } else if is_space(s[i]) {
        Some(i)
    } else {
        first_space(s, i + 1)
    }
}

/// The first word of `s` (up to the first space) and the rest after that
/// space.
pub open spec fn split_word(s: Seq<u8>) -> (Seq<u8>, Seq<u8>) {
    match first_space(s, 0) {
        Some(i) => (s.subrange(0, i), s.subrange(i + 1, s.len() as int)),
        None => (s, Seq::empty()),
    }
}

proof fn lemma_trim_start(s: Seq<u8>)
    ensures
        exists|i: int|
            0 <= i <= s.len() && trim_start(s) == s.subrange(i, s.len() as int) && (forall|k: int|
                0 <= k < i ==> is_space(#[trigger] s[k])) && (i < s.len() ==> !is_space(s[i])),
    decreases s.len(),
{
    if s.len() > 0 && is_space(s[0]) {
        lemma_trim_start(s.drop_first());
        let i = choose|i: int|
            0 <= i <= s.drop_first().len() && trim_start(s.drop_first()) == s.drop_first().subrange(
                i,
                s.drop_first().len() as int,
            ) && (forall|k: int| 0 <= k < i ==> is_space(#[trigger] s.drop_first()[k])) && (i
                < s.drop_first().len() ==> !is_space(s.drop_first()[i]));
        assert(s.drop_first().subrange(i, s.drop_first().len() as int) =~= s.subrange(
            i + 1,
            s.len() as int,
        ));
        assert forall|k: int| 0 <= k < i + 1 implies is_space(#[trigger] s[k]) by {
            if k > 0 {
                assert(s[k] == s.drop_first()[k - 1]);
            }
        }
    } else {
        assert(s.subrange(0, s.len() as int) =~= s);
    }
}

proof fn lemma_trim_end(s: Seq<u8>)
    ensures
        exists|j: int|
            0 <= j <= s.len() && trim_end(s) == s.subrange(0, j) && (forall|k: int|
                j <= k < s.len() ==> is_space(#[trigger] s[k])) && (j > 0 ==> !is_space(s[j - 1])),
    decreases s.len(),
{
    if s.len() > 0 && is_space(s.last()) {
        lemma_trim_end(s.drop_last());
        let j = choose|j: int|
            0 <= j <= s.drop_last().len() && trim_end(s.drop_last()) == s.drop_last().subrange(0, j)
                && (forall|k: int| j <= k < s.drop_last().len() ==> is_space(#[trigger] s.drop_last()[k]))
                && (j > 0 ==> !is_space(s.drop_last()[j - 1]));
        assert(s.drop_last().subrange(0, j) =~= s.subrange(0, j));
        assert forall|k: int| j <= k < s.len() implies is_space(#[trigger] s[k]) by {
            if k < s.len() - 1 {
                assert(s[k] == s.drop_last()[k]);
            }
        }
    } else {
        assert(s.subrange(0, s.len() as int) =~= s);
    }
}

/// `s` without leading and trailing spaces.
pub fn trim_ascii(s: &[u8]) -> (r: &[u8])
    ensures
        r@ == trimmed(s@),
{
    let n = s.len();
    let mut i: usize = 0;
    while i < n && s[i] == 32u8
        invariant
            i <= n,
            n == s@.len(),
            forall|k: int| 0 <= k < i ==> is_space(#[trigger] s@[k]),
        decreases n - i,
    {
        i = i + 1;
    }
    proof {
        lemma_trim_start(s@);
        let i0 = choose|i0: int|
            0 <= i0 <= s@.len() && trim_start(s@) == s@.subrange(i0, s@.len() as int) && (forall|
                k: int,
            | 0 <= k < i0 ==> is_space(#[trigger] s@[k])) && (i0 < s@.len() ==> !is_space(s@[i0]));
        if i0 < i {
            assert(is_space(s@[i0]));
        }
        if i < i0 {
            assert(is_space(s@[i as int]));
        }
        assert(i0 == i);
    }
    if i == n {
        proof {
            assert(trim_start(s@) =~= Seq::<u8>::empty());
        }
        return &s[0..0];
    }
    let mut j: usize = n;
    while j > i && s[j - 1] == 32u8
        invariant
            i < n,
            i <= j <= n,
            n == s@.len(),
            !is_space(s@[i as int]),
            forall|k: int| j <= k < n ==> is_space(#[trigger] s@[k]),
        decreases j,
    {
        j = j - 1;
    }
    proof {
        let t = trim_start(s@);
        assert(t == s@.subrange(i as int, n as int));
        lemma_trim_end(t);
        let j0 = choose|j0: int|
            0 <= j0 <= t.len() && trim_end(t) == t.subrange(0, j0) && (forall|k: int|
                j0 <= k < t.len() ==> is_space(#[trigger] t[k])) && (j0 > 0 ==> !is_space(t[j0 - 1]));
        let jj = j - i;
        if j0 < jj {
            assert(t[jj - 1] == s@[j - 1]);
            assert(!is_space(t[jj - 1]));
        }
        if jj < j0 {
            assert(t[j0 - 1] == s@[i + j0 - 1]);
            assert(is_space(s@[i + j0 - 1]));
        }
        assert(j0 == jj);
        assert(t.subrange(0, j0) =~= s@.subrange(i as int, j as int));
    }
    &s[i..j]
}

/// The first word of `s` and what follows the space after it.
pub fn split_first_word(s: &[u8]) -> (r: (&[u8], &[u8]))
    ensures
        (r.0@, r.1@) == split_word(s@),
{
    let n = s.len();
    let mut i: usize = 0;
    while i < n
        invariant
            i <= n,
            n == s@.len(),
            first_space(s@, 0) == first_space(s@, i as int),
        decreases n - i,
    {
        if s[i] == 32u8 {
            return (&s[0..i], &s[i + 1..n]);
        }
        i = i + 1;
    }
    assert(s@.subrange(0, n as int) =~= s@);
    (&s[0..n], &s[n..n])
}

// ---------------------------------------------------------------- numbers

/// Value of a hexadecimal digit character (either case), if it is one.
pub open spec fn hex_value(b: u8) -> Option<int> {
    if 48 <= b <= 57 {
        Some(b - 48)
    } else if 97 <= b <= 102 {
        Some(b - 97 + 10)
    } else if 65 <= b <= 70 {
        Some(b - 65 + 10)
    } else {
        None
    }
}

/// The number that the hexadecimal digits `s` spell (`None` at a non-digit).
pub open spec fn hex_number(s: Seq<u8>) -> Option<int>
    decreases s.len(),
{
    if s.len() == 0 {
        Some(0)
    } else {
        match (hex_number(s.drop_last()), hex_value(s.last())) {
            (Some(v), Some(d)) => Some(16 * v + d),
            _ => None,
        }
    }
}

/// A colour of one to six hexadecimal digits.
pub open spec fn hex6(s: Seq<u8>) -> Option<u32> {
    if s.len() == 0 || s.len() > 6 {
        None
    } else {
        match hex_number(s) {
            Some(v) => Some(v as u32),
            None => None,
        }
    }
}

proof fn lemma_hex_number_bound(s: Seq<u8>)
    ensures
        hex_number(s) matches Some(v) ==> 0 <= v < pow16(s.len()),
    decreases s.len(),
{
    if s.len() > 0 {
        lemma_hex_number_bound(s.drop_last());
    }
}

pub open spec fn pow16(k: nat) -> int
    decreases k,
{
    if k == 0 {
        1
    } else {
        16 * pow16((k - 1) as nat)
    }
}

/// Parses one to six hexadecimal digits (a 24-bit colour).
pub fn parse_hex6(s: &[u8]) -> (r: Option<u32>)
    ensures
        r == hex6(s@),
{
    if s.len() == 0 || s.len() > 6 {
        return None;
    }
    let mut val: u32 = 0;
    let mut i: usize = 0;
    proof {
        reveal_with_fuel(pow16, 7);
    }
    while i < s.len()
        invariant
            i <= s@.len(),
            s@.len() <= 6,
            hex_number(s@.take(i as int)) == Some(val as int),
            (val as int) < pow16(i as nat),
            pow16(6) == 16777216,
        decreases s.len() - i,
    {
        let b = s[i];
        assert(s@.take(i + 1).drop_last() =~= s@.take(i as int));
        let nib: u8 = if b >= 48 && b <= 57 {
            b - 48
        } else if b >= 97 && b <= 102 {
            b - 97 + 10
        } else if b >= 65 && b <= 70 {
            b - 65 + 10
        } else {
            proof {
                assert(hex_number(s@.take(i + 1)) is None);
                assert(s@.take(i + 1) =~= s@.take(i + 1));
                lemma_hex_none_extends(s@, i as int + 1);
            }
            return None;
        };
        proof {
            assert(pow16((i + 1) as nat) == 16 * pow16(i as nat));
            assert(pow16(i as nat) <= pow16(5)) by {
                lemma_pow16_mono(i as nat, 5);
            }
            assert(val < 1048576);
            assert((val << 4u32) | (nib as u32) == val * 16 + nib) by (bit_vector)
                requires
                    val < 1048576,
                    nib < 16,
            ;
        }
        val = (val << 4) | nib as u32;
        i = i + 1;
    }
    assert(s@.take(i as int) =~= s@);
    Some(val)
}

proof fn lemma_pow16_mono(a: nat, b: nat)
    requires
        a <= b,
    ensures
        pow16(a) <= pow16(b),
        pow16(a) >= 1,
    decreases b,
{
    if a < b {
        lemma_pow16_mono(a, (b - 1) as nat);
    } else if a > 0 {
        lemma_pow16_mono((a - 1) as nat, (a - 1) as nat);
    }
}

proof fn lemma_hex_none_extends(s: Seq<u8>, k: int)
    requires
        0 <= k <= s.len(),
        hex_number(s.take(k)) is None,
    ensures
        hex_number(s) is None,
    decreases s.len() - k,
{
    if k < s.len() {
        assert(s.take(k + 1).drop_last() =~= s.take(k));
        lemma_hex_none_extends(s, k + 1);
    } else {
        assert(s.take(k) =~= s);
    }
}

pub open spec fn is_digit(b: u8) -> bool {
    48 <= b <= 57
}

/// The number that the decimal digits `s` spell (`None` at a non-digit).
pub open spec fn dec_number(s: Seq<u8>) -> Option<int>
    decreases s.len(),
{
    if s.len() == 0 {
        Some(0)
    } else {
        match dec_number(s.drop_last()) {
            Some(v) => if is_digit(s.last()) {
                Some(10 * v + (s.last() - 48))
            } else {
                None
            },
            None => None,
        }
    }
}

/// A non-empty string of decimal digits whose value fits in 32 bits.
pub open spec fn decimal(s: Seq<u8>) -> Option<u32> {
    if s.len() == 0 {
        None
    } else {
        match dec_number(s) {
            Some(v) => if v <= u32::MAX {
                Some(v as u32)
            } else {
                None
            },
            None => None,
        }
    }
}

proof fn lemma_dec_prefix(s: Seq<u8>, k: int)
    requires
        0 <= k <= s.len(),
    ensures
        dec_number(s.take(k)) is None ==> dec_number(s) is None,
        dec_number(s.take(k)) is Some && dec_number(s) is Some ==> 0 <= dec_number(s.take(k))->0
            <= dec_number(s)->0,
    decreases s.len() - k,
{
    if k < s.len() {
        assert(s.take(k + 1).drop_last() =~= s.take(k));
        lemma_dec_prefix(s, k + 1);
        lemma_dec_nonneg(s.take(k));
    } else {
        assert(s.take(k) =~= s);
        lemma_dec_nonneg(s);
    }
}

proof fn lemma_dec_nonneg(s: Seq<u8>)
    ensures
        dec_number(s) matches Some(a) ==> 0 <= a,
    decreases s.len(),
{
    if s.len() > 0 {
        lemma_dec_nonneg(s.drop_last());
    }
}

/// Parses a non-empty string of decimal digits that fits in 32 bits.
pub fn parse_decimal(s: &[u8]) -> (r: Option<u32>)
    ensures
        r == decimal(s@),
{
    if s.len() == 0 {
        return None;
    }
    let mut val: u32 = 0;
    let mut i: usize = 0;
    while i < s.len()
        invariant
            i <= s@.len(),
            s@.len() > 0,
            dec_number(s@.take(i as int)) == Some(val as int),
        decreases s.len() - i,
    {
        let b = s[i];
        assert(s@.take(i + 1).drop_last() =~= s@.take(i as int));
        if !(b >= 48 && b <= 57) {
            proof {
                lemma_dec_prefix(s@, i + 1);
            }
            return None;
        }
        let m = match val.checked_mul(10) {
            Some(m) => m,
            None => {
                proof {
                    lemma_dec_prefix(s@, i + 1);
                }
                return None;
            },
        };
        let a = match m.checked_add((b - 48) as u32) {
            Some(a) => a,
            None => {
                proof {
                    lemma_dec_prefix(s@, i + 1);
                }
                return None;
            },
        };
        val = a;
        i = i + 1;
    }
    assert(s@.take(i as int) =~= s@);
    Some(val)
}

// ---------------------------------------------------------------- commands

/// The ASCII bytes of a character string.
pub open spec fn ascii_of(s: Seq<char>) -> Seq<u8> {
    Seq::new(s.len(), |i: int| s[i] as u8)
}

/// A parsed command line.
#[derive(Debug)]
pub enum Command {
    /// Nothing but spaces.
    Empty,
    Help,
    Cls,
    /// Text to echo.
    Echo(Vec<u8>),
    /// Foreground and background colour, or `None` when either is invalid.
    Color(Option<(u32, u32)>),
    Reboot,
    MemInfo,
    MemTest,
    Heap,
    PgFault,
    DivZero,
    IntOpcode,
    Breakpoint,
    DFault,
    Uptime,
    /// Seconds to sleep.
    Sleep(u64),
    /// Text to write through the system-call path.
    SynWrite(Vec<u8>),
    /// The unrecognised first word.
    Unknown(Vec<u8>),
}

/// The command that `line` spells.
pub open spec fn command_matches(r: Command, line: Seq<u8>) -> bool {
    let t = trimmed(line);
    let (verb, rest) = split_word(t);
    if t.len() == 0 {
        r is Empty
    } else if verb == ascii_of("help"@) {
        r is Help
    } else if verb == ascii_of("cls"@) {
        r is Cls
    } else if verb == ascii_of("echo"@) {
        r matches Command::Echo(x) && x@ == trimmed(rest)
    } else if verb == ascii_of("color"@) {
        let (fg_s, rest2) = split_word(trimmed(rest));
        let (bg_s, _) = split_word(trimmed(rest2));
        r == Command::Color(
            match (hex6(fg_s), hex6(bg_s)) {
                (Some(f), Some(b)) => Some((f, b)),
                _ => None,
            },
        )
    } else if verb == ascii_of("reboot"@) {
        r is Reboot
    } else if verb == ascii_of("meminfo"@) {
        r is MemInfo
    } else if verb == ascii_of("memtest"@) {
        r is MemTest
    } else if verb == ascii_of("heap"@) {
        r is Heap
    } else if verb == ascii_of("pgfault"@) {
        r is PgFault
    } else if verb == ascii_of("divzero"@) {
        r is DivZero
    } else if verb == ascii_of("intopcode"@) {
        r is IntOpcode
    } else if verb == ascii_of("breakpoint"@) {
        r is Breakpoint
    } else if verb == ascii_of("dfault"@) {
        r is DFault
    } else if verb == ascii_of("uptime"@) {
        r is Uptime
    } else if verb == ascii_of("sleep"@) {
        let (secs_s, _) = split_word(trimmed(rest));
        r == Command::Sleep(
            match decimal(secs_s) {
                Some(v) => v as u64,
                None => 1,
            },
        )
    } else if verb == ascii_of("synwrite"@) {
        r matches Command::SynWrite(x) && x@ == trimmed(rest)
    } else {
        r matches Command::Unknown(x) && x@ == verb
    }
}

/// Whether `a` and `b` hold the same bytes.
fn bytes_eq(a: &[u8], b: &[u8]) -> (r: bool)
    ensures
        r == (a@ == b@),
{
    if a.len() != b.len() {
        return false;
    }
    let mut i: usize = 0;
    while i < a.len()
        invariant
            i <= a@.len(),
            a@.len() == b@.len(),
            forall|k: int| 0 <= k < i ==> a@[k] == b@[k],
        decreases a.len() - i,
    {
        if a[i] != b[i] {
            return false;
        }
        i = i + 1;
    }
    assert(a@ =~= b@);
    true
}

/// A copy of `s`.
fn to_vec(s: &[u8]) -> (r: Vec<u8>)
    ensures
        r@ == s@,
{
    let mut v: Vec<u8> = Vec::new();
    let mut i: usize = 0;
    while i < s.len()
        invariant
            i <= s@.len(),
            v@ == s@.take(i as int),
        decreases s.len() - i,
    {
        v.push(s[i]);
        i = i + 1;
        assert(v@ =~= s@.take(i as int));
    }
    assert(s@.take(i as int) =~= s@);
    v
}

/// Parses a command line: its first word names the command, the rest are
/// its arguments.
pub fn parse_command(line: &[u8]) -> (r: Command)
    ensures
        command_matches(r, line@),
{
    let cmd = trim_ascii(line);
    if cmd.len() == 0 {
        return Command::Empty;
    }
    let (verb, rest) = split_first_word(cmd);
    let w_help: [u8; 4] = [104, 101, 108, 112];
    let w_cls: [u8; 3] = [99, 108, 115];
    let w_echo: [u8; 4] = [101, 99, 104, 111];
    let w_color: [u8; 5] = [99, 111, 108, 111, 114];
    let w_reboot: [u8; 6] = [114, 101, 98, 111, 111, 116];
    let w_meminfo: [u8; 7] = [109, 101, 109, 105, 110, 102, 111];
    let w_memtest: [u8; 7] = [109, 101, 109, 116, 101, 115, 116];
    let w_heap: [u8; 4] = [104, 101, 97, 112];
    let w_pgfault: [u8; 7] = [112, 103, 102, 97, 117, 108, 116];
    let w_divzero: [u8; 7] = [100, 105, 118, 122, 101, 114, 111];
    let w_intopcode: [u8; 9] = [105, 110, 116, 111, 112, 99, 111, 100, 101];
    let w_breakpoint: [u8; 10] = [98, 114, 101, 97, 107, 112, 111, 105, 110, 116];
    let w_dfault: [u8; 6] = [100, 102, 97, 117, 108, 116];
    let w_uptime: [u8; 6] = [117, 112, 116, 105, 109, 101];
    let w_sleep: [u8; 5] = [115, 108, 101, 101, 112];
    let w_synwrite: [u8; 8] = [115, 121, 110, 119, 114, 105, 116, 101];
    proof {
        reveal_strlit("help");
        reveal_strlit("cls");
        reveal_strlit("echo");
        reveal_strlit("color");
        reveal_strlit("reboot");
        reveal_strlit("meminfo");
        reveal_strlit("memtest");
        reveal_strlit("heap");
        reveal_strlit("pgfault");
        reveal_strlit("divzero");
        reveal_strlit("intopcode");
        reveal_strlit("breakpoint");
        reveal_strlit("dfault");
        reveal_strlit("uptime");
        reveal_strlit("sleep");
        reveal_strlit("synwrite");
        assert(w_help@ =~= ascii_of("help"@));
        assert(w_cls@ =~= ascii_of("cls"@));
        assert(w_echo@ =~= ascii_of("echo"@));
        assert(w_color@ =~= ascii_of("color"@));
        assert(w_reboot@ =~= ascii_of("reboot"@));
        assert(w_meminfo@ =~= ascii_of("meminfo"@));
        assert(w_memtest@ =~= ascii_of("memtest"@));
        assert(w_heap@ =~= ascii_of("heap"@));
        assert(w_pgfault@ =~= ascii_of("pgfault"@));
        assert(w_divzero@ =~= ascii_of("divzero"@));
        assert(w_intopcode@ =~= ascii_of("intopcode"@));
        assert(w_breakpoint@ =~= ascii_of("breakpoint"@));
        assert(w_dfault@ =~= ascii_of("dfault"@));
        assert(w_uptime@ =~= ascii_of("uptime"@));
        assert(w_sleep@ =~= ascii_of("sleep"@));
        assert(w_synwrite@ =~= ascii_of("synwrite"@));
    }
    if bytes_eq(verb, w_help.as_slice()) {
        Command::Help
    } else if bytes_eq(verb, w_cls.as_slice()) {
        Command::Cls
    } else if bytes_eq(verb, w_echo.as_slice()) {
        Command::Echo(to_vec(trim_ascii(rest)))
    } else if bytes_eq(verb, w_color.as_slice()) {
        let (fg_s, rest2) = split_first_word(trim_ascii(rest));
        let (bg_s, _) = split_first_word(trim_ascii(rest2));
        match (parse_hex6(fg_s), parse_hex6(bg_s)) {
            (Some(fg), Some(bg)) => Command::Color(Some((fg, bg))),
            _ => Command::Color(None),
        }
    } else if bytes_eq(verb, w_reboot.as_slice()) {
        Command::Reboot
    } else if bytes_eq(verb, w_meminfo.as_slice()) {
        Command::MemInfo
    } else if bytes_eq(verb, w_memtest.as_slice()) {
        Command::MemTest
    } else if bytes_eq(verb, w_heap.as_slice()) {
        Command::Heap
    } else if bytes_eq(verb, w_pgfault.as_slice()) {
        Command::PgFault
    } else if bytes_eq(verb, w_divzero.as_slice()) {
        Command::DivZero
    } else if bytes_eq(verb, w_intopcode.as_slice()) {
        Command::IntOpcode
    } else if bytes_eq(verb, w_breakpoint.as_slice()) {
        Command::Breakpoint
    } else if bytes_eq(verb, w_dfault.as_slice()) {
        Command::DFault
    } else if bytes_eq(verb, w_uptime.as_slice()) {
        Command::Uptime
    } else if bytes_eq(verb, w_sleep.as_slice()) {
        let (secs_s, _) = split_first_word(trim_ascii(rest));
        let secs: u64 = match parse_decimal(secs_s) {
            Some(v) => v as u64,
            None => 1,
        };
        Command::Sleep(secs)
    } else if bytes_eq(verb, w_synwrite.as_slice()) {
        Command::SynWrite(to_vec(trim_ascii(rest)))
    } else {
        Command::Unknown(to_vec(verb))
    }
}

// ---------------------------------------------------------------- line editor

/// The shell's line editor.
pub struct Shell {
    buf: [u8; 256],
    len: usize,
}

/// What the caller must do after a command's output has been written.
#[derive(Debug)]
pub enum ShellAction {
    /// Nothing more.
    Done,
    /// Reset the machine.
    Reboot,
    /// Run the heap allocation test.
    MemTest,
    /// Dump the heap's block list to the terminal.
    HeapDump,
    /// Read an unmapped address.
    PageFault,
    /// Divide by zero.
    DivideByZero,
    /// Execute an undefined instruction.
    InvalidOpcode,
    /// Execute a breakpoint instruction.
    Breakpoint,
    /// Overflow the stack.
    DoubleFault,
    /// Sleep this many seconds.
    Sleep(u64),
    /// Write these bytes through the system-call path.
    SysWrite(Vec<u8>),
}

/// Counters that some commands report.
#[derive(Clone, Copy, Debug)]
pub struct SystemInfo {
    pub free_pages: usize,
    pub total_pages: usize,
    pub ticks: u64,
}

/// The prompt.
pub open spec fn prompt() -> Seq<char> {
    "kernel> "@
}

/// The screen after writing `v` in decimal.
pub open spec fn put_num(g: Geometry, s: Screen, v: nat) -> Screen {
    put_chars(g, s, byte_chars(dec_digits(v)))
}

/// The screen after the help text.
pub open spec fn help_screen(g: Geometry, s: Screen) -> Screen {
    let s = put_chars(g, s, "Available commands:\n"@);
    let s = put_chars(g, s, "  help              - show this help\n"@);
    let s = put_chars(g, s, "  cls               - clear the screen\n"@);
    let s = put_chars(g, s, "  color <fg> <bg>   - set colors (hex RRGGBB)\n"@);
    let s = put_chars(g, s, "  echo <text>       - print text\n"@);
    let s = put_chars(g, s, "  reboot            - reboot the machine\n"@);
    let s = put_chars(g, s, "  meminfo           - show PMM free/total pages\n"@);
    let s = put_chars(g, s, "  memtest           - run heap alloc/free test\n"@);
    let s = put_chars(g, s, "  heap              - dump heap block list\n"@);
    let s = put_chars(g, s, "  pgfault           - trigger intentional page fault\n"@);
    let s = put_chars(g, s, "  divzero           - trigger divide-by-zero exception\n"@);
    let s = put_chars(g, s, "  intopcode         - trigger invalid opcode exception\n"@);
    let s = put_chars(g, s, "  breakpoint        - trigger int3 (returns normally)\n"@);
    let s = put_chars(g, s, "  dfault            - trigger a double fault (stack overflow)\n"@);
    let s = put_chars(g, s, "  uptime            - show ticks/seconds since boot\n"@);
    let s = put_chars(g, s, "  sleep <secs>      - sleep N seconds using the PIT\n"@);
    put_chars(g, s, "  synwrite <text>   - write text via the int 0x80 syscall path\n"@)
}

/// The screen after the memory report.
pub open spec fn meminfo_screen(g: Geometry, s: Screen, free: nat, total: nat) -> Screen {
    let used = (total - free) as nat;
    let s = put_chars(g, s, "PMM status:\n"@);
    let s = put_chars(g, s, "  Free  pages : "@);
    let s = put_num(g, s, free);
    let s = put_chars(g, s, " ("@);
    let s = put_num(g, s, free * 4);
    let s = put_chars(g, s, " KiB)\n"@);
    let s = put_chars(g, s, "  Used  pages : "@);
    let s = put_num(g, s, used);
    let s = put_chars(g, s, " ("@);
    let s = put_num(g, s, used * 4);
    let s = put_chars(g, s, " KiB)\n"@);
    let s = put_chars(g, s, "  Total pages : "@);
    let s = put_num(g, s, total);
    let s = put_chars(g, s, " ("@);
    let s = put_num(g, s, total * 4);
    put_chars(g, s, " KiB)\n"@)
}

/// The screen after the uptime report for `ticks` timer ticks.
pub open spec fn uptime_screen(g: Geometry, s: Screen, ticks: u64) -> Screen {
    let s = put_chars(g, s, "Uptime: "@);
    let s = put_num(g, s, ((ticks / 100) as usize) as nat);
    let s = put_chars(g, s, "s ("@);
    let s = put_num(g, s, (ticks as usize) as nat);
    put_chars(g, s, " ticks)\n"@)
}

/// What executing `cmd` writes to the terminal.
pub open spec fn execute_screen(g: Geometry, s: Screen, cmd: Command, info: SystemInfo) -> Screen {
    match cmd {
        Command::Empty => s,
        Command::Help => help_screen(g, s),
        Command::Cls => cleared(s),
        Command::Echo(x) => put_chars(g, s, byte_chars(x@).push('\n')),
        Command::Color(Some((f, b))) => put_chars(
            g,
            Screen { fg: f, bg: b, ..s },
            "Color updated.\n"@,
        ),
        Command::Color(None) => put_chars(g, s, "Usage: color RRGGBB RRGGBB\n"@),
        Command::Reboot => put_chars(g, s, "Rebooting...\n"@),
        Command::MemInfo => meminfo_screen(
            g,
            s,
            info.free_pages as nat,
            info.total_pages as nat,
        ),
        Command::MemTest => put_chars(g, s, "Running heap allocator test...\n"@),
        Command::Heap => s,
        Command::PgFault => put_chars(g, s, "Triggering page fault at 0xdeadbeef...\n"@),
        Command::DivZero => put_chars(g, s, "Triggering divide-by-zero...\n"@),
        Command::IntOpcode => put_chars(g, s, "Triggering invalid opcode (ud2)...\n"@),
        Command::Breakpoint => put_chars(g, s, "Triggering breakpoint (int3)...\n"@),
        Command::DFault => put_chars(
            g,
            s,
            "Triggering double fault (recursive stack overflow)...\n"@,
        ),
        Command::Uptime => uptime_screen(g, s, info.ticks),
        Command::Sleep(secs) => put_chars(
            g,
            put_num(g, put_chars(g, s, "Sleeping "@), (secs as usize) as nat),
            "s...\n"@,
        ),
        Command::SynWrite(_) => put_chars(g, s, "via syscall: "@),
        Command::Unknown(v) => put_chars(
            g,
            put_chars(g, put_chars(g, s, "Unknown command: "@), byte_chars(v@)),
            "\nType 'help' for a list of commands.\n"@,
        ),
    }
}

/// What the caller must do after executing `cmd`.
pub open spec fn action_matches(r: ShellAction, cmd: Command) -> bool {
    match cmd {
        Command::Reboot => r is Reboot,
        Command::MemTest => r is MemTest,
        Command::Heap => r is HeapDump,
        Command::PgFault => r is PageFault,
        Command::DivZero => r is DivideByZero,
        Command::IntOpcode => r is InvalidOpcode,
        Command::Breakpoint => r is Breakpoint,
        Command::DFault => r is DoubleFault,
        Command::Sleep(secs) => r == ShellAction::Sleep(secs),
        Command::SynWrite(x) => r matches ShellAction::SysWrite(y) && y@ == x@,
        _ => r is Done,
    }
}

/// What the shell writes after the caller has carried out `a`, before the
/// next prompt.
pub open spec fn trailer(a: ShellAction) -> Seq<char> {
    match a {
        ShellAction::Sleep(_) => "Awake.\n"@,
        ShellAction::SysWrite(_) => "\n"@,
        ShellAction::Breakpoint => "Returned from breakpoint handler.\n"@,
        _ => Seq::empty(),
    }
}

/// Writes `v` in decimal.
pub fn print_usize(term: &mut Terminal, v: usize)
    requires
        old(term).wf(),
    ensures
        final(term).wf(),
        final(term).geom() == old(term).geom(),
        final(term).screen() == put_num(old(term).geom(), old(term).screen(), v as nat),
{
    term.print_usize(v);
}

impl Shell {
    /// The line typed so far.
    pub closed spec fn line(&self) -> Seq<u8> {
        self.buf@.take(self.len as int)
    }

    pub closed spec fn wf(&self) -> bool {
        self.len < CMD_BUF_SIZE
    }

    /// An empty line.
    pub fn new() -> (r: Self)
        ensures
            r.wf(),
            r.line() == Seq::<u8>::empty(),
    {
        let r = Shell { buf: [0u8; 256], len: 0 };
        assert(r.line() =~= Seq::<u8>::empty());
        r
    }

    /// Writes the prompt.
    pub fn show_prompt(&self, term: &mut Terminal)
        requires
            old(term).wf(),
        ensures
            final(term).wf(),
            final(term).geom() == old(term).geom(),
            final(term).screen() == put_chars(old(term).geom(), old(term).screen(), prompt()),
    {
        term.print("kernel> ");
    }

    /// Handles one typed byte. Enter ends the line and returns its command
    /// (the caller executes it, then calls `complete`); backspace deletes the
    /// last character; printable ASCII is appended and echoed while the line
    /// has room; anything else is ignored.
    pub fn handle_key(&mut self, term: &mut Terminal, key: u8) -> (r: Option<Command>)
        requires
            old(self).wf(),
            old(term).wf(),
        ensures
            final(self).wf(),
            final(term).wf(),
            final(term).geom() == old(term).geom(),
            key == 10 ==> (r matches Some(c) && command_matches(c, old(self).line())
                && final(self).line() == Seq::<u8>::empty() && final(term).screen() == put_char(
                old(term).geom(),
                old(term).screen(),
                '\n',
            )),
            key == 8 ==> r is None && if old(self).line().len() > 0 {
                final(self).line() == old(self).line().drop_last() && final(term).screen()
                    == backspaced(old(term).geom(), old(term).screen())
            } else {
                final(self).line() == old(self).line() && final(term).screen() == old(
                    term,
                ).screen()
            },
            32 <= key < 127 ==> r is None && if old(self).line().len() < CMD_BUF_SIZE - 1 {
                final(self).line() == old(self).line().push(key) && final(term).screen()
                    == put_char(old(term).geom(), old(term).screen(), key as char)
            } else {
                final(self).line() == old(self).line() && final(term).screen() == old(
                    term,
                ).screen()
            },
            key != 10 && key != 8 && !(32 <= key < 127) ==> r is None && final(self).line() == old(
                self,
            ).line() && final(term).screen() == old(term).screen(),
    {
        if key == 10 {
            term.putc('\n');
            let cmd = parse_command(&self.buf.as_slice()[0..self.len]);
            self.len = 0;
            assert(self.line() =~= Seq::<u8>::empty());
            Some(cmd)
        } else if key == 8 {
            if self.len > 0 {
                self.len = self.len - 1;
                term.backspace();
                assert(self.line() =~= old(self).line().drop_last());
            }
            None
        } else if key >= 32 && key < 127 {
            if self.len < CMD_BUF_SIZE - 1 {
                self.buf[self.len] = key;
                self.len = self.len + 1;
                term.putc(key as char);
                assert(self.line() =~= old(self).line().push(key));
            }
            None
        } else {
            None
        }
    }

    /// Writes what command `cmd` shows and says what the caller must do to
    /// finish it.
    pub fn execute(&self, term: &mut Terminal, cmd: &Command, info: &SystemInfo) -> (r: ShellAction)
        requires
            old(term).wf(),
            info.free_pages <= info.total_pages,
            info.total_pages * 4 <= usize::MAX,
        ensures
            final(term).wf(),
            final(term).geom() == old(term).geom(),
            final(term).screen() == execute_screen(old(term).geom(), old(term).screen(), *cmd, *info),
            action_matches(r, *cmd),
    {
        match cmd {
            Command::Empty => ShellAction::Done,
            Command::Help => {
                term.print("Available commands:\n");
                term.print("  help              - show this help\n");
                term.print("  cls               - clear the screen\n");
                term.print("  color <fg> <bg>   - set colors (hex RRGGBB)\n");
                term.print("  echo <text>       - print text\n");
                term.print("  reboot            - reboot the machine\n");
                term.print("  meminfo           - show PMM free/total pages\n");
                term.print("  memtest           - run heap alloc/free test\n");
                term.print("  heap              - dump heap block list\n");
                term.print("  pgfault           - trigger intentional page fault\n");
                term.print("  divzero           - trigger divide-by-zero exception\n");
                term.print("  intopcode         - trigger invalid opcode exception\n");
                term.print("  breakpoint        - trigger int3 (returns normally)\n");
                term.print("  dfault            - trigger a double fault (stack overflow)\n");
                term.print("  uptime            - show ticks/seconds since boot\n");
                term.print("  sleep <secs>      - sleep N seconds using the PIT\n");
                term.print("  synwrite <text>   - write text via the int 0x80 syscall path\n");
                ShellAction::Done
            },
            Command::Cls => {
                term.clear();
                ShellAction::Done
            },
            Command::Echo(text) => {
                let ghost g = term.geom();
                let ghost s0 = term.screen();
                let mut i: usize = 0;
                while i < text.len()
                    invariant
                        i <= text@.len(),
                        term.wf(),
                        term.geom() == g,
                        term.screen() == put_chars(g, s0, byte_chars(text@.take(i as int))),
                    decreases text.len() - i,
                {
                    assert(byte_chars(text@.take(i + 1)).drop_last() =~= byte_chars(
                        text@.take(i as int),
                    ));
                    term.putc(text[i] as char);
                    i = i + 1;
                }
                term.putc('\n');
                assert(text@.take(i as int) =~= text@);
                assert(byte_chars(text@).push('\n').drop_last() =~= byte_chars(text@));
                ShellAction::Done
            },
            Command::Color(c) => {
                match c {
                    Some((fg, bg)) => {
                        term.set_color(*fg, *bg);
                        term.print("Color updated.\n");
                    },
                    None => {
                        term.print("Usage: color RRGGBB RRGGBB\n");
                    },
                }
                ShellAction::Done
            },
            Command::Reboot => {
                term.print("Rebooting...\n");
                ShellAction::Reboot
            },
            Command::MemInfo => {
                let free = info.free_pages;
                let total = info.total_pages;
                let used = total - free;
                term.print("PMM status:\n");
                term.print("  Free  pages : ");
                print_usize(term, free);
                term.print(" (");
                print_usize(term, free * 4);
                term.print(" KiB)\n");
                term.print("  Used  pages : ");
                print_usize(term, used);
                term.print(" (");
                print_usize(term, used * 4);
                term.print(" KiB)\n");
                term.print("  Total pages : ");
                print_usize(term, total);
                term.print(" (");
                print_usize(term, total * 4);
                term.print(" KiB)\n");
                ShellAction::Done
            },
            Command::MemTest => {
                term.print("Running heap allocator test...\n");
                ShellAction::MemTest
            },
            Command::Heap => ShellAction::HeapDump,
            Command::PgFault => {
                term.print("Triggering page fault at 0xdeadbeef...\n");
                ShellAction::PageFault
            },
            Command::DivZero => {
                term.print("Triggering divide-by-zero...\n");
                ShellAction::DivideByZero
            },
            Command::IntOpcode => {
                term.print("Triggering invalid opcode (ud2)...\n");
                ShellAction::InvalidOpcode
            },
            Command::Breakpoint => {
                term.print("Triggering breakpoint (int3)...\n");
                ShellAction::Breakpoint
            },
            Command::DFault => {
                term.print("Triggering double fault (recursive stack overflow)...\n");
                ShellAction::DoubleFault
            },
            Command::Uptime => {
                let ticks = info.ticks;
                let secs = ticks / 100;
                term.print("Uptime: ");
                print_usize(term, secs as usize);
                term.print("s (");
                print_usize(term, ticks as usize);
                term.print(" ticks)\n");
                ShellAction::Done
            },
            Command::Sleep(secs) => {
                term.print("Sleeping ");
                print_usize(term, *secs as usize);
                term.print("s...\n");
                ShellAction::Sleep(*secs)
            },
            Command::SynWrite(text) => {
                term.print("via syscall: ");
                ShellAction::SysWrite(to_vec(text.as_slice()))
            },
            Command::Unknown(verb) => {
                term.print("Unknown command: ");
                let ghost g = term.geom();
                let ghost s0 = term.screen();
                let mut i: usize = 0;
                while i < verb.len()
                    invariant
                        i <= verb@.len(),
                        term.wf(),
                        term.geom() == g,
                        term.screen() == put_chars(g, s0, byte_chars(verb@.take(i as int))),
                    decreases verb.len() - i,
                {
                    assert(byte_chars(verb@.take(i + 1)).drop_last() =~= byte_chars(
                        verb@.take(i as int),
                    ));
                    term.putc(verb[i] as char);
                    i = i + 1;
                }
                assert(verb@.take(i as int) =~= verb@);
                term.print("\nType 'help' for a list of commands.\n");
                ShellAction::Done
            },
        }
    }

    /// Writes what follows an action the caller has carried out, then the
    /// prompt.
    pub fn complete(&self, term: &mut Terminal, action: &ShellAction)
        requires
            old(term).wf(),
        ensures
            final(term).wf(),
            final(term).geom() == old(term).geom(),
            final(term).screen() == put_chars(
                old(term).geom(),
                put_chars(old(term).geom(), old(term).screen(), trailer(*action)),
                prompt(),
            ),
    {
        match action {
            ShellAction::Sleep(_) => {
                term.print("Awake.\n");
            },
            ShellAction::SysWrite(_) => {
                let ghost g = term.geom();
                let ghost s0 = term.screen();
                term.putc('\n');
                proof {
                    reveal_strlit("\n");
                    assert("\n"@ =~= seq!['\n']);
                    assert(seq!['\n'].drop_last() =~= Seq::<char>::empty());
                    reveal_with_fuel(put_chars, 2);
                    assert(put_chars(g, s0, seq!['\n']) == put_char(g, s0, '\n'));
                }
            },
            ShellAction::Breakpoint => {
                term.print("Returned from breakpoint handler.\n");
            },
            _ => {},
        }
        self.show_prompt(term);
    }
}

/// Writes the result lines of the heap test: whether the written patterns
/// read back intact and whether the freed neighbours merged into a block
/// big enough for a larger allocation.
pub fn memtest_report(term: &mut Terminal, pattern_ok: bool, coalesce_ok: bool)
    requires
        old(term).wf(),
    ensures
        final(term).wf(),
        final(term).geom() == old(term).geom(),
        final(term).screen() == put_chars(
            old(term).geom(),
            put_chars(
                old(term).geom(),
                put_chars(
                    old(term).geom(),
                    old(term).screen(),
                    if pattern_ok {
                        "  Pattern check : PASS\n"@
                    } else {
                        "  Pattern check : FAIL\n"@
                    },
                ),
                if coalesce_ok {
                    "  Coalesce test : PASS\n"@
                } else {
                    "  Coalesce test : FAIL\n"@
                },
            ),
            "Test complete. Heap dump follows:\n"@,
        ),
{
    term.print(
        if pattern_ok {
            "  Pattern check : PASS\n"
        } else {
            "  Pattern check : FAIL\n"
        },
    );
    term.print(
        if coalesce_ok {
            "  Coalesce test : PASS\n"
        } else {
            "  Coalesce test : FAIL\n"
        },
    );
    term.print("Test complete. Heap dump follows:\n");
}

/// Starts the shell on `term`: the banner, then the prompt.
pub fn run_shell(term: &mut Terminal) -> (r: Shell)
    requires
        old(term).wf(),
    ensures
        r.wf(),
        r.line() == Seq::<u8>::empty(),
        final(term).wf(),
        final(term).geom() == old(term).geom(),
        final(term).screen() == put_chars(
            old(term).geom(),
            put_chars(
                old(term).geom(),
                old(term).screen(),
                "Kernel shell ready. Type 'help' for commands.\n\n"@,
            ),
            prompt(),
        ),
{
    let shell = Shell::new();
    term.print("Kernel shell ready. Type 'help' for commands.\n\n");
    shell.show_prompt(term);
    shell
}

/// The digits `dec_digits` writes spell the number back.
proof fn lemma_dec_number_of_digits(v: nat)
    ensures
        dec_number(dec_digits(v)) == Some(v as int),
    decreases v,
{
    if v < 10 {
        let d = dec_digits(v);
        assert(d.drop_last() =~= Seq::<u8>::empty());
        assert(dec_number(d.drop_last()) == Some(0int));
        assert(d.last() == dec_digit(v));
        assert(dec_digit(v) == 48 + v);
        assert(is_digit(d.last()));
    } else {
        lemma_dec_number_of_digits(v / 10);
        assert(dec_digits(v).drop_last() =~= dec_digits(v / 10));
        assert(dec_digits(v).last() == dec_digit(v % 10));
        assert(10 * (v / 10) + v % 10 == v) by (nonlinear_arith);
    }
}

/// Reading back a number the shell wrote in decimal gives the number:
/// `parse_decimal` undoes `print_usize` on every `u32`.
pub proof fn law_decimal_round_trip(n: u32)
    ensures
        decimal(dec_digits(n as nat)) == Some(n),
{
    lemma_dec_number_of_digits(n as nat);
}

/// The first `k` of the sixteen digits `hex16` writes spell `v` without its
/// last `16 - k` hexadecimal digits.
proof fn lemma_hex16_prefix(v: u64, k: nat)
    requires
        k <= 16,
    ensures
        k == 0 ==> hex_number(hex16(v).take(k as int)) == Some(0int),
        k >= 1 ==> hex_number(hex16(v).take(k as int)) == Some(
            (v >> (4 * ((16 - k) as u64))) as int,
        ),
    decreases k,
{
    let h = hex16(v);
    if k == 0 {
        assert(h.take(0) =~= Seq::<u8>::empty());
    } else {
        lemma_hex16_prefix(v, (k - 1) as nat);
        let j: u64 = (16 - k) as u64;
        let a: u64 = v >> (4 * j);
        assert(h.take(k as int).drop_last() =~= h.take(k - 1));
        assert(h.take(k as int).last() == hex_digit(nibble(v, j)));
        assert(a & 0xf == a % 16) by (bit_vector);
        assert(a & 0xf < 16) by (bit_vector);
        assert(hex_value(hex_digit(a & 0xf)) == Some((a & 0xf) as int));
        if k == 1 {
            assert(v >> (4 * 15u64) < 16) by (bit_vector);
        } else {
            assert(v >> (4 * (j + 1)) == (v >> (4 * j)) / 16) by (bit_vector)
                requires
                    j < 15,
            ;
            assert((16 - (k - 1)) as u64 == j + 1);
        }
    }
}

/// Reading back the sixteen hexadecimal digits that the kernel prints for a
/// value gives the value, and each digit is the lower-case hexadecimal digit
/// of the matching four bits, most significant first.
pub proof fn law_hex16_round_trip(v: u64)
    ensures
        hex_number(hex16(v)) == Some(v as int),
        forall|i: int|
            0 <= i < 16 ==> #[trigger] hex16(v)[i] == "0123456789abcdef"@[((v >> (4 * (15
                - i) as u64)) & 0xf) as int] as u8,
{
    lemma_hex16_prefix(v, 16);
    assert(hex16(v).take(16) =~= hex16(v));
    assert(v >> (4 * 0u64) == v) by (bit_vector);
    reveal_strlit("0123456789abcdef");
    assert forall|i: int| 0 <= i < 16 implies #[trigger] hex16(v)[i] == "0123456789abcdef"@[((v
        >> (4 * (15 - i) as u64)) & 0xf) as int] as u8 by {
        let x: u64 = v >> (4 * (15 - i) as u64);
        assert(x & 0xf < 16) by (bit_vector);
        assert(hex16(v)[i] == hex_digit(x & 0xf));
    }
}

/// `meminfo` reports the used pages as the total less the free ones: its
/// text is the free count, the used count `total - free` and the total,
/// each in pages and in KiB (four per page).
pub proof fn law_meminfo_used_is_total_minus_free(g: Geometry, s: Screen, free: nat, total: nat)
    requires
        free <= total,
    ensures
        meminfo_screen(g, s, free, total) == put_chars(
            g,
            s,
            "PMM status:\n"@ + "  Free  pages : "@ + byte_chars(dec_digits(free)) + " ("@ + byte_chars(
                dec_digits(4 * free),
            ) + " KiB)\n"@ + "  Used  pages : "@ + byte_chars(dec_digits((total - free) as nat))
                + " ("@ + byte_chars(dec_digits((4 * (total - free)) as nat)) + " KiB)\n"@
                + "  Total pages : "@ + byte_chars(dec_digits(total)) + " ("@ + byte_chars(
                dec_digits(4 * total),
            ) + " KiB)\n"@,
        ),
{
    let p1 = "PMM status:\n"@;
    let p2 = "  Free  pages : "@;
    let p3 = byte_chars(dec_digits(free));
    let p4 = " ("@;
    let p5 = byte_chars(dec_digits(4 * free));
    let p6 = " KiB)\n"@;
    let p7 = "  Used  pages : "@;
    let p8 = byte_chars(dec_digits((total - free) as nat));
    let p9 = byte_chars(dec_digits((4 * (total - free)) as nat));
    let p10 = "  Total pages : "@;
    let p11 = byte_chars(dec_digits(total));
    let p12 = byte_chars(dec_digits(4 * total));
    assert((total - free) as nat * 4 == (4 * (total - free)) as nat);
    assert(free * 4 == 4 * free);
    assert(total * 4 == 4 * total);
    let a1 = p1;
    lemma_put_chars_concat(g, s, a1, p2);
    let a2 = a1 + p2;
    lemma_put_chars_concat(g, s, a2, p3);
    let a3 = a2 + p3;
    lemma_put_chars_concat(g, s, a3, p4);
    let a4 = a3 + p4;
    lemma_put_chars_concat(g, s, a4, p5);
    let a5 = a4 + p5;
    lemma_put_chars_concat(g, s, a5, p6);
    let a6 = a5 + p6;
    lemma_put_chars_concat(g, s, a6, p7);
    let a7 = a6 + p7;
    lemma_put_chars_concat(g, s, a7, p8);
    let a8 = a7 + p8;
    lemma_put_chars_concat(g, s, a8, p4);
    let a9 = a8 + p4;
    lemma_put_chars_concat(g, s, a9, p9);
    let a10 = a9 + p9;
    lemma_put_chars_concat(g, s, a10, p6);
    let a11 = a10 + p6;
    lemma_put_chars_concat(g, s, a11, p10);
    let a12 = a11 + p10;
    lemma_put_chars_concat(g, s, a12, p11);
    let a13 = a12 + p11;
    lemma_put_chars_concat(g, s, a13, p4);
    let a14 = a13 + p4;
    lemma_put_chars_concat(g, s, a14, p12);
    let a15 = a14 + p12;
    lemma_put_chars_concat(g, s, a15, p6);
}

/// `uptime` reports the whole seconds since boot, the ticks divided by the
/// timer's rate, then the ticks themselves.
pub proof fn law_uptime_seconds_are_ticks_over_rate(g: Geometry, s: Screen, ticks: u64)
    requires
        ticks <= usize::MAX,
    ensures
        uptime_screen(g, s, ticks) == put_chars(
            g,
            s,
            "Uptime: "@ + byte_chars(dec_digits((ticks / (TICKS_PER_SECOND as u64)) as nat)) + "s ("@
                + byte_chars(dec_digits(ticks as nat)) + " ticks)\n"@,
        ),
{
    let p1 = "Uptime: "@;
    let p2 = byte_chars(dec_digits((ticks / (TICKS_PER_SECOND as u64)) as nat));
    let p3 = "s ("@;
    let p4 = byte_chars(dec_digits(ticks as nat));
    let p5 = " ticks)\n"@;
    lemma_put_chars_concat(g, s, p1, p2);
    lemma_put_chars_concat(g, s, p1 + p2, p3);
    lemma_put_chars_concat(g, s, p1 + p2 + p3, p4);
    lemma_put_chars_concat(g, s, p1 + p2 + p3 + p4, p5);
}

} // verus!

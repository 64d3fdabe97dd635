//! PS/2 keyboard: scancode set 1 translation with shift tracking, and the
//! ring buffer that holds typed characters until the shell reads them.
use vstd::prelude::*;
use crate::device::port::{PortWrite, pw};

verus! {

pub const SC_LSHIFT_DOWN: u8 = 0x2a;
pub const SC_RSHIFT_DOWN: u8 = 0x36;
pub const SC_LSHIFT_UP: u8 = 0xAA;
pub const SC_RSHIFT_UP: u8 = 0xB6;

/// Capacity of the ring buffer's storage; it holds at most one byte less.
pub const BUF_SIZE: usize = 256;

/// Data port of the PS/2 controller.
pub const PS2_DATA: u16 = 0x60;
/// Command/status port of the PS/2 controller.
pub const PS2_COMMAND: u16 = 0x64;

/// ASCII for scancodes 0x00..0x53 without shift (0: no character).
pub open spec fn plain_table() -> Seq<u8> {
    seq![
        0, 27, 49, 50, 51, 52, 53, 54,
        55, 56, 57, 48, 45, 61, 8, 9,
        113, 119, 101, 114, 116, 121, 117, 105,
        111, 112, 91, 93, 10, 0, 97, 115,
        100, 102, 103, 104, 106, 107, 108, 59,
        39, 96, 0, 92, 122, 120, 99, 118,
        98, 110, 109, 44, 46, 47, 0, 42,
        0, 32, 0, 0, 0, 0, 0, 0,
        0, 0, 0, 0, 0, 0, 0, 55,
        56, 57, 45, 52, 53, 54, 43, 49,
        50, 51, 48, 46
    ]
}

/// ASCII for scancodes 0x00..0x53 with shift held (0: no character).
pub open spec fn shift_table() -> Seq<u8> {
    seq![
        0, 27, 33, 64, 35, 36, 37, 94,
        38, 42, 40, 41, 95, 43, 8, 9,
        81, 87, 69, 82, 84, 89, 85, 73,
        79, 80, 123, 125, 10, 0, 65, 83,
        68, 70, 71, 72, 74, 75, 76, 58,
        34, 126, 0, 124, 90, 88, 67, 86,
        66, 78, 77, 60, 62, 63, 0, 42,
        0, 32, 0, 0, 0, 0, 0, 0,
        0, 0, 0, 0, 0, 0, 0, 55,
        56, 57, 45, 52, 53, 54, 43, 49,
        50, 51, 48, 46
    ]
}

/// The character a make code produces (0 when it produces none).
pub open spec fn translate(scancode: u8, shift: bool) -> u8 {
    let t = if shift {
        shift_table()
    } else {
        plain_table()
    };
    if scancode < 84 {
        t[scancode as int]
    } else {
        0
    }
}

/// Fixed-size FIFO of typed bytes.
pub struct KeyBuffer {
    buf: [u8; 256],
    head: usize,
    tail: usize,
}

/// Adding `b` to the queue `q`: dropped when the buffer is full.
pub open spec fn queue_push(q: Seq<u8>, b: u8) -> Seq<u8> {
    if q.len() < BUF_SIZE - 1 {
        q.push(b)
    } else {
        q
    }
}

impl KeyBuffer {
    /// The queued bytes, oldest first.
    pub closed spec fn view(&self) -> Seq<u8> {
        let n = if self.head >= self.tail {
            self.head - self.tail
        } else {
            self.head + BUF_SIZE - self.tail
        };
        Seq::new(n as nat, |i: int| self.buf@[(self.tail + i) % (BUF_SIZE as int)])
    }

    pub closed spec fn wf(&self) -> bool {
        self.head < BUF_SIZE && self.tail < BUF_SIZE
    }

    /// A queue never holds more than `BUF_SIZE - 1` bytes.
    pub proof fn lemma_capacity(&self)
        requires
            self.wf(),
        ensures
            self@.len() < BUF_SIZE,
    {
    }

    /// An empty buffer.
    pub fn new() -> (r: Self)
        ensures
            r.wf(),
            r@ == Seq::<u8>::empty(),
    {
        let r = KeyBuffer { buf: [0u8; 256], head: 0, tail: 0 };
        assert(r@ =~= Seq::<u8>::empty());
        r
    }

    /// Appends `byte` unless the buffer is full.
    pub fn push(&mut self, byte: u8)
        requires
            old(self).wf(),
        ensures
            final(self).wf(),
            final(self)@ == queue_push(old(self)@, byte),
    {
        let next = (self.head + 1) % BUF_SIZE;
        if next != self.tail {
            let ghost q = self@;
            self.buf[self.head] = byte;
            self.head = next;
            assert(self@ =~= q.push(byte));
        }
    }

    /// Removes and returns the oldest byte.
    pub fn pop(&mut self) -> (r: Option<u8>)
        requires
            old(self).wf(),
        ensures
            final(self).wf(),
            old(self)@.len() == 0 ==> r is None && final(self)@ == old(self)@,
            old(self)@.len() > 0 ==> r == Some(old(self)@[0]) && final(self)@ == old(
                self,
            )@.drop_first(),
    {
        if self.head == self.tail {
            None
        } else {
            let ghost q = self@;
            let b = self.buf[self.tail];
            self.tail = (self.tail + 1) % BUF_SIZE;
            assert(self@ =~= q.drop_first());
            Some(b)
        }
    }

    /// Whether nothing is queued.
    pub fn is_empty(&self) -> (r: bool)
        requires
            self.wf(),
        ensures
            r == (self@.len() == 0),
    {
        self.head == self.tail
    }
}

/// Keyboard driver state.
pub struct Keyboard {
    pub buffer: KeyBuffer,
    /// A shift key is held.
    pub shift: bool,
}

impl Keyboard {
    pub open spec fn shift_held(&self) -> bool {
        self.shift
    }

    /// The typed characters not yet read, oldest first.
    pub open spec fn typed(&self) -> Seq<u8> {
        self.buffer@
    }

    pub open spec fn wf(&self) -> bool {
        self.buffer.wf()
    }

    /// No key held, nothing typed.
    pub fn new() -> (r: Self)
        ensures
            r.wf(),
            r.typed() == Seq::<u8>::empty(),
            !r.shift_held(),
    {
        Keyboard { buffer: KeyBuffer::new(), shift: false }
    }

    /// Handles one scancode read from the data port: shift make/break codes
    /// update the shift state, other break codes are ignored, and a make code
    /// with a character queues that character.
    pub fn handle_irq(&mut self, scancode: u8)
        requires
            old(self).wf(),
        ensures
            final(self).wf(),
            final(self).shift_held() == if scancode == SC_LSHIFT_DOWN || scancode
                == SC_RSHIFT_DOWN {
                true
            } else if scancode == SC_LSHIFT_UP || scancode == SC_RSHIFT_UP {
                false
            } else {
                old(self).shift_held()
            },
            final(self).typed() == if scancode == SC_LSHIFT_DOWN || scancode == SC_RSHIFT_DOWN
                || scancode == SC_LSHIFT_UP || scancode == SC_RSHIFT_UP || scancode >= 0x80
                || translate(scancode, old(self).shift_held()) == 0 {
                old(self).typed()
            } else {
                queue_push(old(self).typed(), translate(scancode, old(self).shift_held()))
            },
    {
        if scancode == SC_LSHIFT_DOWN || scancode == SC_RSHIFT_DOWN {
            self.shift = true;
        } else if scancode == SC_LSHIFT_UP || scancode == SC_RSHIFT_UP {
            self.shift = false;
        } else {
            if scancode & 0x80 != 0 {
                assert(scancode >= 0x80) by (bit_vector)
                    requires
                        scancode & 0x80 != 0,
                ;
                return;
            }
            assert(scancode < 0x80) by (bit_vector)
                requires
                    scancode & 0x80 == 0,
            ;
            let ascii = scancode_to_ascii(scancode, self.shift);
            if ascii != 0 {
                self.buffer.push(ascii);
            }
        }
    }
}

/// Looks up the character for a make code.
fn scancode_to_ascii(scancode: u8, shift: bool) -> (r: u8)
    ensures
        r == translate(scancode, shift),
{
    let plain: [u8; 84] = [
        0, 27, 49, 50, 51, 52, 53, 54,
        55, 56, 57, 48, 45, 61, 8, 9,
        113, 119, 101, 114, 116, 121, 117, 105,
        111, 112, 91, 93, 10, 0, 97, 115,
        100, 102, 103, 104, 106, 107, 108, 59,
        39, 96, 0, 92, 122, 120, 99, 118,
        98, 110, 109, 44, 46, 47, 0, 42,
        0, 32, 0, 0, 0, 0, 0, 0,
        0, 0, 0, 0, 0, 0, 0, 55,
        56, 57, 45, 52, 53, 54, 43, 49,
        50, 51, 48, 46,
    ];
    let shifted: [u8; 84] = [
        0, 27, 33, 64, 35, 36, 37, 94,
        38, 42, 40, 41, 95, 43, 8, 9,
        81, 87, 69, 82, 84, 89, 85, 73,
        79, 80, 123, 125, 10, 0, 65, 83,
        68, 70, 71, 72, 74, 75, 76, 58,
        34, 126, 0, 124, 90, 88, 67, 86,
        66, 78, 77, 60, 62, 63, 0, 42,
        0, 32, 0, 0, 0, 0, 0, 0,
        0, 0, 0, 0, 0, 0, 0, 55,
        56, 57, 45, 52, 53, 54, 43, 49,
        50, 51, 48, 46,
    ];
    assert(plain@ =~= plain_table());
    assert(shifted@ =~= shift_table());
    let idx = scancode as usize;
    if idx < 84 {
        if shift {
            shifted[idx]
        } else {
            plain[idx]
        }
    } else {
        0
    }
}

/// The controller configuration byte with the first port's interrupt
/// enabled and its clock enabled.
pub open spec fn configured(ccb: u8) -> u8 {
    (ccb | 0x01) & !0x10u8
}

/// Port writes that store the updated controller configuration, given the
/// byte read back after the "read configuration" command.
pub fn init(ccb: u8) -> (r: Vec<PortWrite>)
    ensures
        r@ == seq![pw(PS2_COMMAND, 0x60), pw(PS2_DATA, configured(ccb))],
{
    let mut c = ccb;
    c = c | 0x01;
    c = c & !0x10u8;
    let mut v: Vec<PortWrite> = Vec::new();
    v.push(PortWrite { port: PS2_COMMAND, value: 0x60 });
    v.push(PortWrite { port: PS2_DATA, value: c });
    assert(v@ =~= seq![pw(PS2_COMMAND, 0x60), pw(PS2_DATA, configured(ccb))]);
    v
}

/// The controller's input buffer is empty, so a byte may be written.
pub fn can_write(status: u8) -> (r: bool)
    ensures
        r == (status & 0x02 == 0),
{
    status & 0x02 == 0
}

/// The controller's output buffer is full, so a byte may be read.
pub fn can_read(status: u8) -> (r: bool)
    ensures
        r == (status & 0x01 != 0),
{
    status & 0x01 != 0
}

/// The queue after pushing the bytes of `bs` in order.
pub open spec fn pushes(q: Seq<u8>, bs: Seq<u8>) -> Seq<u8>
    decreases bs.len(),
{
    if bs.len() == 0 {
        q
    } else {
        queue_push(pushes(q, bs.drop_last()), bs.last())
    }
}

/// The key buffer is first in, first out: bytes pushed while there is room
/// queue up behind the ones already waiting, in the order they came, so
/// `pop` hands them out in that order.
pub proof fn law_key_buffer_fifo(q: Seq<u8>, bs: Seq<u8>)
    requires
        q.len() + bs.len() < BUF_SIZE,
    ensures
        pushes(q, bs) == q + bs,
    decreases bs.len(),
{
    if bs.len() > 0 {
        law_key_buffer_fifo(q, bs.drop_last());
        assert(q + bs =~= (q + bs.drop_last()).push(bs.last()));
    }
}

/// A full buffer drops what is pushed onto it.
pub proof fn law_key_buffer_full_drops(q: Seq<u8>, b: u8)
    requires
        q.len() >= BUF_SIZE - 1,
    ensures
        queue_push(q, b) == q,
{
}

/// The digit row types its digits, and with shift the symbols above them:
/// make codes 0x02 to 0x0b give "1234567890" and "!@#$%^&*()".
pub proof fn law_digit_row()
    ensures
        forall|i: int| 0 <= i < 10 ==> translate((0x02 + i) as u8, false) == "1234567890"@[i] as u8,
        forall|i: int| 0 <= i < 10 ==> translate((0x02 + i) as u8, true) == "!@#$%^&*()"@[i] as u8,
{
    reveal_strlit("1234567890");
    reveal_strlit("!@#$%^&*()");
}

/// The letter keys, unshifted, type their lower-case letters: the make
/// codes 0x10 to 0x19 spell "qwertyuiop", 0x1e to 0x26 "asdfghjkl" and
/// 0x2c to 0x32 "zxcvbnm"; held shift turns each into its upper case.
pub proof fn law_letter_keys()
    ensures
        forall|i: int| 0 <= i < 10 ==> translate((0x10 + i) as u8, false) == "qwertyuiop"@[i] as u8,
        forall|i: int| 0 <= i < 9 ==> translate((0x1e + i) as u8, false) == "asdfghjkl"@[i] as u8,
        forall|i: int| 0 <= i < 7 ==> translate((0x2c + i) as u8, false) == "zxcvbnm"@[i] as u8,
        forall|sc: u8|
            (0x10 <= sc <= 0x19 || 0x1e <= sc <= 0x26 || 0x2c <= sc <= 0x32) ==> translate(sc, true)
                == translate(sc, false) - 32,
{
    reveal_strlit("qwertyuiop");
    reveal_strlit("asdfghjkl");
    reveal_strlit("zxcvbnm");
}

/// The punctuation keys type the symbols of the US layout, and with shift
/// the symbols above them: make codes 0x0c and 0x0d give "-=" and "_+",
/// 0x1a and 0x1b "[]" and "{}", 0x27 to 0x29 ";'`" and ":\"~", 0x2b a
/// backslash and "|", 0x33 to 0x35 ",./" and "<>?".
pub proof fn law_punctuation_keys()
    ensures
        forall|i: int| 0 <= i < 2 ==> translate((0x0c + i) as u8, false) == "-="@[i] as u8,
        forall|i: int| 0 <= i < 2 ==> translate((0x0c + i) as u8, true) == "_+"@[i] as u8,
        forall|i: int| 0 <= i < 2 ==> translate((0x1a + i) as u8, false) == "[]"@[i] as u8,
        forall|i: int| 0 <= i < 2 ==> translate((0x1a + i) as u8, true) == "{}"@[i] as u8,
        forall|i: int| 0 <= i < 3 ==> translate((0x27 + i) as u8, false) == ";'`"@[i] as u8,
        forall|i: int| 0 <= i < 3 ==> translate((0x27 + i) as u8, true) == ":\"~"@[i] as u8,
        translate(0x2b, false) == "\\"@[0] as u8,
        translate(0x2b, true) == "|"@[0] as u8,
        forall|i: int| 0 <= i < 3 ==> translate((0x33 + i) as u8, false) == ",./"@[i] as u8,
        forall|i: int| 0 <= i < 3 ==> translate((0x33 + i) as u8, true) == "<>?"@[i] as u8,
{
    reveal_strlit("-=");
    reveal_strlit("_+");
    reveal_strlit("[]");
    reveal_strlit("{}");
    reveal_strlit(";'`");
    reveal_strlit(":\"~");
    reveal_strlit("\\");
    reveal_strlit("|");
    reveal_strlit(",./");
    reveal_strlit("<>?");
}

/// Shift does not change the control and keypad keys: escape (0x01) gives
/// 27, backspace (0x0e) 8, tab (0x0f) 9, enter (0x1c) a newline, the keypad
/// star (0x37) "*", space (0x39) " ", and the keypad codes 0x47 to 0x53 spell
/// "789-456+1230.". The modifier, lock and function keys (0x00, 0x1d, 0x2a,
/// 0x36, 0x38, 0x3a to 0x46) and every code from 0x54 up give no character.
pub proof fn law_control_and_keypad_keys()
    ensures
        forall|shift: bool| translate(0x01, shift) == 27,
        forall|shift: bool| translate(0x0e, shift) == 8,
        forall|shift: bool| translate(0x0f, shift) == 9,
        forall|shift: bool| translate(0x1c, shift) == "\n"@[0] as u8,
        forall|shift: bool| translate(0x37, shift) == "*"@[0] as u8,
        forall|shift: bool| translate(0x39, shift) == " "@[0] as u8,
        forall|i: int, shift: bool|
            0 <= i < 13 ==> #[trigger] translate((0x47 + i) as u8, shift) == "789-456+1230."@[i] as u8,
        forall|sc: u8, shift: bool|
            (sc == 0x00 || sc == 0x1d || sc == 0x2a || sc == 0x36 || sc == 0x38 || (0x3a <= sc
                <= 0x46) || sc >= 0x54) ==> translate(sc, shift) == 0,
{
    reveal_strlit("\n");
    reveal_strlit("*");
    reveal_strlit(" ");
    reveal_strlit("789-456+1230.");
}

} // verus!

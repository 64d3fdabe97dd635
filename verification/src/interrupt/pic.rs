//! 8259 programmable interrupt controllers: remapping, end of interrupt,
//! masking, status registers; and routing the local APIC's LINT0 to them.
use vstd::prelude::*;
use crate::device::port::{PortWrite, pw};
use crate::memory::pmm::Pmm;
use crate::memory::vmm::{PhysMem, map_page, map_effect, map_ok, PTE_PRESENT, PTE_WRITABLE, PTE_NO_CACHE};

verus! {

pub const PIC1_CMD: u16 = 0x20;
pub const PIC1_DATA: u16 = 0x21;
pub const PIC2_CMD: u16 = 0xA0;
pub const PIC2_DATA: u16 = 0xA1;
pub const ICW1_INIT: u8 = 0x10;
pub const ICW1_ICW4: u8 = 0x01;
pub const ICW4_8086: u8 = 0x01;
pub const PIC_EOI: u8 = 0x20;
/// The APIC base model-specific register.
pub const APIC_BASE_MSR: u32 = 0x1B;
/// Virtual address at which the local APIC's registers are mapped.
pub const LAPIC_VIRT: u64 = 0xffff_ffff_fee0_0000;

/// The initialisation sequence: vectors 32..47, cascade on line 2, 8086
/// mode, then only the timer and keyboard lines unmasked.
pub open spec fn remap_sequence() -> Seq<PortWrite> {
    seq![
        pw(0x20, 0x11),
        pw(0xA0, 0x11),
        pw(0x21, 32),
        pw(0xA1, 40),
        pw(0x21, 4),
        pw(0xA1, 2),
        pw(0x21, 1),
        pw(0xA1, 1),
        pw(0x21, 0xFC),
        pw(0xA1, 0xFF),
    ]
}

/// Port writes that remap both controllers (the caller waits briefly after
/// each of the first eight).
pub fn remap() -> (r: Vec<PortWrite>)
    ensures
        r@ == remap_sequence(),
{
    let mut v: Vec<PortWrite> = Vec::new();
    v.push(PortWrite { port: PIC1_CMD, value: ICW1_INIT | ICW1_ICW4 });
    v.push(PortWrite { port: PIC2_CMD, value: ICW1_INIT | ICW1_ICW4 });
    v.push(PortWrite { port: PIC1_DATA, value: 32 });
    v.push(PortWrite { port: PIC2_DATA, value: 40 });
    v.push(PortWrite { port: PIC1_DATA, value: 0b0000_0100 });
    v.push(PortWrite { port: PIC2_DATA, value: 2 });
    v.push(PortWrite { port: PIC1_DATA, value: ICW4_8086 });
    v.push(PortWrite { port: PIC2_DATA, value: ICW4_8086 });
    v.push(PortWrite { port: PIC1_DATA, value: 0b1111_1100 });
    v.push(PortWrite { port: PIC2_DATA, value: 0b1111_1111 });
    assert(ICW1_INIT | ICW1_ICW4 == 0x11u8) by (bit_vector);
    assert(v@ =~= remap_sequence());
    v
}

/// Port writes that acknowledge interrupt line `irq`: the slave too for
/// lines 8 and up, then the master.
pub fn send_eoi(irq: u8) -> (r: Vec<PortWrite>)
    ensures
        irq >= 8 ==> r@ == seq![pw(PIC2_CMD, PIC_EOI), pw(PIC1_CMD, PIC_EOI)],
        irq < 8 ==> r@ == seq![pw(PIC1_CMD, PIC_EOI)],
{
    let mut v: Vec<PortWrite> = Vec::new();
    if irq >= 8 {
        v.push(PortWrite { port: PIC2_CMD, value: PIC_EOI });
    }
    v.push(PortWrite { port: PIC1_CMD, value: PIC_EOI });
    proof {
        if irq >= 8 {
            assert(v@ =~= seq![pw(PIC2_CMD, PIC_EOI), pw(PIC1_CMD, PIC_EOI)]);
        } else {
            assert(v@ =~= seq![pw(PIC1_CMD, PIC_EOI)]);
        }
    }
    v
}

/// The data port holding the mask of line `irq`.
pub fn mask_port(irq: u8) -> (r: u16)
    ensures
        r == if irq < 8 {
            PIC1_DATA
        } else {
            PIC2_DATA
        },
{
    if irq < 8 {
        PIC1_DATA
    } else {
        PIC2_DATA
    }
}

/// The port write that masks line `irq`, given the mask currently in its
/// controller.
pub fn set_mark(irq: u8, current: u8) -> (r: PortWrite)
    requires
        irq < 16,
    ensures
        r.port == if irq < 8 {
            PIC1_DATA
        } else {
            PIC2_DATA
        },
        r.value == current | (1u8 << (if irq < 8 {
            irq
        } else {
            (irq - 8) as u8
        })),
{
    let port = mask_port(irq);
    let line = if irq < 8 {
        irq
    } else {
        irq - 8
    };
    let value = current | (1u8 << line);
    PortWrite { port, value }
}

/// The command that selects the interrupt request register for reading
/// from the master's command port.
pub fn read_irr() -> (r: PortWrite)
    ensures
        r == pw(PIC1_CMD, 0x0A),
{
    PortWrite { port: PIC1_CMD, value: 0x0A }
}

/// The command that selects the in-service register for reading from the
/// master's command port.
pub fn read_isr() -> (r: PortWrite)
    ensures
        r == pw(PIC1_CMD, 0x0B),
{
    PortWrite { port: PIC1_CMD, value: 0x0B }
}

/// Offset of the spurious-interrupt vector register in the local APIC page.
pub const LAPIC_SVR_OFFSET: usize = 0x0F0;
/// Offset of the LINT0 local vector table entry.
pub const LAPIC_LINT0_OFFSET: usize = 0x350;
/// LINT0 entry value for ExtINT delivery (the 8259 delivers through it).
pub const LINT0_EXTINT: u32 = 0x700;

/// The spurious-interrupt vector register with the APIC software-enabled and
/// the spurious vector set to 0xFF.
pub fn svr_enabled(svr: u32) -> (r: u32)
    ensures
        r == svr | 0x1FF,
        r & 0x100 != 0,
        r & 0xFF == 0xFF,
{
    let r = svr | 0x1FF;
    assert((svr | 0x1FF) & 0x100 != 0 && (svr | 0x1FF) & 0xFF == 0xFF) by (bit_vector);
    r
}

/// Page-table flags of the local APIC's register page.
pub open spec fn lapic_flags() -> u64 {
    PTE_PRESENT | PTE_WRITABLE | PTE_NO_CACHE
}

/// Physical address of the local APIC's registers, from the APIC base MSR.
pub open spec fn apic_phys(msr: u64) -> usize {
    (msr & 0xFFFF_F000) as usize
}

/// Maps the local APIC's register page (uncached) at `LAPIC_VIRT`, given
/// the value of the APIC base MSR. The caller then writes `svr_enabled` of
/// the spurious vector register back and `LINT0_EXTINT` to LINT0.
pub fn enable_lapic_pic_mode(mem: &mut PhysMem, pmm: &mut Pmm, cr3: u64, msr: u64)
    requires
        LAPIC_VIRT <= usize::MAX,
        old(pmm).wf(),
        map_ok(old(mem)@, old(pmm).used(), cr3, LAPIC_VIRT as usize),
    ensures
        final(pmm).wf(),
        final(pmm).total() == old(pmm).total(),
        final(pmm).usable() == old(pmm).usable(),
        final(pmm).bitmap_range() == old(pmm).bitmap_range(),
        (final(mem)@, final(pmm).used()) == map_effect(
            old(mem)@,
            old(pmm).used(),
            cr3,
            LAPIC_VIRT as usize,
            apic_phys(msr),
            lapic_flags(),
        ),
{
    let phys = (msr & 0xFFFF_F000) as usize;
    assert(phys % 4096 == 0) by (bit_vector)
        requires
            phys == (msr & 0xFFFF_F000) as usize,
    ;
    let virt = LAPIC_VIRT as usize;
    assert(virt % 4096 == 0);
    map_page(mem, pmm, cr3, virt, phys, PTE_PRESENT | PTE_WRITABLE | PTE_NO_CACHE);
}

} // verus!

//! The ARM generic interrupt controller (GICv2): its distributor and CPU
//! interface, and the timer programmed through it. The barriers around
//! register accesses are the caller's.
use vstd::prelude::*;
use crate::volatile::Volatile;

verus! {

/// The interrupt lines the kernel uses.
pub const IRQ_LINES: usize = 256;

/// Priority of every line: the default 0xA0 in each of four bytes.
pub const PRIORITY_ALL: u32 = 0xa0a0_a0a0;

/// Target of every line: core 0 in each of four bytes.
pub const TARGET_CORE0_ALL: u32 = 0x0101_0101;

/// Distributor control: disabled.
pub const GICD_CTLR_DISABLE: u32 = 0;

/// Distributor control: enabled.
pub const GICD_CTLR_ENABLE: u32 = 1;

/// CPU interface priority mask: let every priority below 0xF0 through.
pub const GICC_PMR_PRIORITY: u32 = 0xf0;

/// CPU interface control: enabled.
pub const GICC_CTLR_ENABLE: u32 = 1;

/// The interrupt id in the interrupt acknowledge register.
pub const IAR_INTERRUPT_ID_MASK: u32 = 0x3ff;

/// How often the timer interrupts, per second.
pub const TIMER_INTERRUPT_FREQUENCY: u64 = 60;

/// The distributor's registers; the banked arrays hold one cell per word.
#[allow(non_snake_case)]
pub struct GICD {
    pub CTLR: Volatile<u32>,
    pub IGROUPR: Vec<Volatile<u32>>,
    pub ISENABLER: Vec<Volatile<u32>>,
    pub ICENABLER: Vec<Volatile<u32>>,
    pub ISPENDR: Vec<Volatile<u32>>,
    pub ICPENDR: Vec<Volatile<u32>>,
    pub ISACTIVER: Vec<Volatile<u32>>,
    pub ICACTIVER: Vec<Volatile<u32>>,
    pub IPRIORITYR: Vec<Volatile<u32>>,
    pub ITARGETSR: Vec<Volatile<u32>>,
    pub ICFGR: Vec<Volatile<u32>>,
    pub SGIR: Volatile<u32>,
}

/// The CPU interface's registers.
#[allow(non_snake_case)]
pub struct GICC {
    pub CTLR: Volatile<u32>,
    pub PMR: Volatile<u32>,
    pub IAR: Volatile<u32>,
    pub EOIR: Volatile<u32>,
}

/// The register arrays are as long as the hardware's.
pub open spec fn gicd_wf(d: GICD) -> bool {
    &&& d.ISENABLER@.len() == 32
    &&& d.ICENABLER@.len() == 32
    &&& d.ICPENDR@.len() == 32
    &&& d.ICACTIVER@.len() == 32
    &&& d.IPRIORITYR@.len() == 248
    &&& d.ITARGETSR@.len() == 248
    &&& d.ICFGR@.len() == 62
}

/// A register of the controller that the driver writes. The first seven
/// are the distributor's, the last three the CPU interface's.
pub enum GicReg {
    DistributorControl,
    ClearEnable,
    ClearPending,
    ClearActive,
    Priority,
    Target,
    Config,
    SetEnable,
    PriorityMask,
    CpuControl,
    EndOfInterrupt,
}

/// The distributor's cells behind `reg`: the words of a banked register, or
/// the one cell of the control register; none for a register of the CPU
/// interface.
pub open spec fn dist_cells(d: GICD, reg: GicReg) -> Seq<Volatile<u32>> {
    match reg {
        GicReg::DistributorControl => seq![d.CTLR],
        GicReg::ClearEnable => d.ICENABLER@,
        GicReg::ClearPending => d.ICPENDR@,
        GicReg::ClearActive => d.ICACTIVER@,
        GicReg::Priority => d.IPRIORITYR@,
        GicReg::Target => d.ITARGETSR@,
        GicReg::Config => d.ICFGR@,
        GicReg::SetEnable => d.ISENABLER@,
        _ => Seq::empty(),
    }
}

/// `after` is `before` with `v` written to cell `n`.
pub open spec fn cell_written(before: Seq<Volatile<u32>>, after: Seq<Volatile<u32>>, n: int, v: u32) -> bool {
    &&& after.len() == before.len()
    &&& after[n].writes() == before[n].writes().push(v)
    &&& after[n]@ == v
    &&& forall|k: int| 0 <= k < before.len() && k != n ==> #[trigger] after[k] == before[k]
}

/// `d` is `d0` with `v` written to word `n` of `reg`, and nothing else.
pub open spec fn dist_written(d0: GICD, d: GICD, reg: GicReg, n: int, v: u32) -> bool {
    &&& cell_written(dist_cells(d0, reg), dist_cells(d, reg), n, v)
    &&& (reg != GicReg::DistributorControl ==> d.CTLR == d0.CTLR)
    &&& (reg != GicReg::ClearEnable ==> d.ICENABLER == d0.ICENABLER)
    &&& (reg != GicReg::ClearPending ==> d.ICPENDR == d0.ICPENDR)
    &&& (reg != GicReg::ClearActive ==> d.ICACTIVER == d0.ICACTIVER)
    &&& (reg != GicReg::Priority ==> d.IPRIORITYR == d0.IPRIORITYR)
    &&& (reg != GicReg::Target ==> d.ITARGETSR == d0.ITARGETSR)
    &&& (reg != GicReg::Config ==> d.ICFGR == d0.ICFGR)
    &&& (reg != GicReg::SetEnable ==> d.ISENABLER == d0.ISENABLER)
    &&& d.IGROUPR == d0.IGROUPR
    &&& d.ISPENDR == d0.ISPENDR
    &&& d.ISACTIVER == d0.ISACTIVER
    &&& d.SGIR == d0.SGIR
}

/// `c` is `c0` with `v` written to `reg`, and nothing else.
pub open spec fn cpu_written(c0: GICC, c: GICC, reg: GicReg, v: u32) -> bool {
    &&& (reg == GicReg::PriorityMask ==> c.PMR.writes() == c0.PMR.writes().push(v) && c.PMR@ == v)
    &&& (reg != GicReg::PriorityMask ==> c.PMR == c0.PMR)
    &&& (reg == GicReg::CpuControl ==> c.CTLR.writes() == c0.CTLR.writes().push(v) && c.CTLR@ == v)
    &&& (reg != GicReg::CpuControl ==> c.CTLR == c0.CTLR)
    &&& (reg == GicReg::EndOfInterrupt ==> c.EOIR.writes() == c0.EOIR.writes().push(v) && c.EOIR@ == v)
    &&& (reg != GicReg::EndOfInterrupt ==> c.EOIR == c0.EOIR)
    &&& c.IAR == c0.IAR
}

/// Writes `v` to word `n` of `regs`.
fn write_word(regs: &mut Vec<Volatile<u32>>, n: usize, v: u32)
    requires
        n < old(regs)@.len(),
    ensures
        cell_written(old(regs)@, final(regs)@, n as int, v),
{
    let mut cell = Volatile::new(0);
    regs.set_and_swap(n, &mut cell);
    cell.set(v);
    regs.set_and_swap(n, &mut cell);
}

/// Writes `v` to word `n` of the distributor's register `reg`, and records
/// the write in `log`.
fn write_dist(d: &mut GICD, log: &mut Ghost<Seq<(GicReg, int, u32)>>, reg: GicReg, n: usize, v: u32)
    requires
        n < dist_cells(*old(d), reg).len(),
    ensures
        dist_written(*old(d), *final(d), reg, n as int, v),
        final(log)@ == old(log)@.push((reg, n as int, v)),
{
    match reg {
        GicReg::DistributorControl => d.CTLR.set(v),
        GicReg::ClearEnable => write_word(&mut d.ICENABLER, n, v),
        GicReg::ClearPending => write_word(&mut d.ICPENDR, n, v),
        GicReg::ClearActive => write_word(&mut d.ICACTIVER, n, v),
        GicReg::Priority => write_word(&mut d.IPRIORITYR, n, v),
        GicReg::Target => write_word(&mut d.ITARGETSR, n, v),
        GicReg::Config => write_word(&mut d.ICFGR, n, v),
        GicReg::SetEnable => write_word(&mut d.ISENABLER, n, v),
        _ => {},
    }
    *log = Ghost(log@.push((reg, n as int, v)));
}

/// Writes `v` to the CPU interface's register `reg`, and records the write
/// in `log`.
fn write_cpu(c: &mut GICC, log: &mut Ghost<Seq<(GicReg, int, u32)>>, reg: GicReg, v: u32)
    ensures
        cpu_written(*old(c), *final(c), reg, v),
        final(log)@ == old(log)@.push((reg, 0int, v)),
{
    match reg {
        GicReg::PriorityMask => c.PMR.set(v),
        GicReg::CpuControl => c.CTLR.set(v),
        GicReg::EndOfInterrupt => c.EOIR.set(v),
        _ => {},
    }
    *log = Ghost(log@.push((reg, 0int, v)));
}

/// The writes that disable, unpend and deactivate the lines of the first
/// `n` words, word by word.
pub open spec fn clear_writes(n: nat) -> Seq<(GicReg, int, u32)>
    decreases n,
{
    if n == 0 {
        Seq::empty()
    } else {
        let k = n - 1;
        clear_writes((n - 1) as nat) + seq![
            (GicReg::ClearEnable, k, 0xffff_ffffu32),
            (GicReg::ClearPending, k, 0xffff_ffffu32),
            (GicReg::ClearActive, k, 0xffff_ffffu32),
        ]
    }
}

/// The writes that give the lines of the first `n` words their priority
/// and their core, word by word.
pub open spec fn route_writes(n: nat) -> Seq<(GicReg, int, u32)>
    decreases n,
{
    if n == 0 {
        Seq::empty()
    } else {
        let k = n - 1;
        route_writes((n - 1) as nat) + seq![
            (GicReg::Priority, k, PRIORITY_ALL),
            (GicReg::Target, k, TARGET_CORE0_ALL),
        ]
    }
}

/// The writes that make the lines of the first `n` words level triggered.
pub open spec fn config_writes(n: nat) -> Seq<(GicReg, int, u32)>
    decreases n,
{
    if n == 0 {
        Seq::empty()
    } else {
        config_writes((n - 1) as nat).push((GicReg::Config, n - 1, 0u32))
    }
}

/// Every write that setting the controller up makes, in order.
pub open spec fn init_writes() -> Seq<(GicReg, int, u32)> {
    seq![(GicReg::DistributorControl, 0int, GICD_CTLR_DISABLE)]
        + clear_writes((IRQ_LINES / 32) as nat)
        + route_writes((IRQ_LINES / 4) as nat)
        + config_writes((IRQ_LINES / 16) as nat)
        + seq![
            (GicReg::DistributorControl, 0int, GICD_CTLR_ENABLE),
            (GicReg::PriorityMask, 0int, GICC_PMR_PRIORITY),
            (GicReg::CpuControl, 0int, GICC_CTLR_ENABLE),
        ]
}

/// After writing `v` to the first `n` cells of `after` (which were those of
/// `before`), the rest unchanged.
pub open spec fn written_prefix(before: Seq<Volatile<u32>>, after: Seq<Volatile<u32>>, n: int, v: u32) -> bool {
    &&& after.len() == before.len()
    &&& forall|k: int| 0 <= k < n ==> #[trigger] after[k].writes() == before[k].writes().push(v) && after[k]@ == v
    &&& forall|k: int| n <= k < before.len() ==> #[trigger] after[k] == before[k]
}

/// The controller: its two register blocks once found, the last interrupt
/// acknowledged, and (as ghost state) every register write the driver has
/// made, in order: the register, the word written within it (0 for a
/// register of one word), and the value.
#[allow(non_snake_case)]
pub struct GIC {
    pub GICD: Option<GICD>,
    pub GICC: Option<GICC>,
    pub iar: u32,
    pub log: Ghost<Seq<(GicReg, int, u32)>>,
}

impl GIC {
    /// A controller with no registers yet and no write made.
    pub fn new() -> (r: Self)
        ensures
            r.GICD is None,
            r.GICC is None,
            r.iar == 0,
            r.log@ == Seq::<(GicReg, int, u32)>::empty(),
    {
        GIC { GICD: None, GICC: None, iar: 0, log: Ghost(Seq::empty()) }
    }

    /// Sets the controller up: the distributor is disabled; word by word,
    /// every line is disabled, unpended and deactivated; word by word, every
    /// line gets the default priority and goes to core 0; every line is
    /// made level triggered; then the distributor and the CPU interface are
    /// enabled. The log gains exactly these writes, in this order.
    #[verifier::rlimit(40)]
    pub fn init_gic(&mut self)
        requires
            old(self).GICD is Some,
            old(self).GICC is Some,
            gicd_wf(old(self).GICD->0),
        ensures
            final(self).GICD is Some,
            final(self).GICC is Some,
            final(self).log@ == old(self).log@ + init_writes(),
            ({
                let d0 = old(self).GICD->0;
                let d = final(self).GICD->0;
                let c0 = old(self).GICC->0;
                let c = final(self).GICC->0;
                &&& gicd_wf(d)
                &&& d.CTLR.writes() == d0.CTLR.writes() + seq![GICD_CTLR_DISABLE, GICD_CTLR_ENABLE]
                &&& written_prefix(d0.ICENABLER@, d.ICENABLER@, (IRQ_LINES / 32) as int, 0xffff_ffff)
                &&& written_prefix(d0.ICPENDR@, d.ICPENDR@, (IRQ_LINES / 32) as int, 0xffff_ffff)
                &&& written_prefix(d0.ICACTIVER@, d.ICACTIVER@, (IRQ_LINES / 32) as int, 0xffff_ffff)
                &&& written_prefix(d0.IPRIORITYR@, d.IPRIORITYR@, (IRQ_LINES / 4) as int, PRIORITY_ALL)
                &&& written_prefix(d0.ITARGETSR@, d.ITARGETSR@, (IRQ_LINES / 4) as int, TARGET_CORE0_ALL)
                &&& written_prefix(d0.ICFGR@, d.ICFGR@, (IRQ_LINES / 16) as int, 0)
                &&& d.ISENABLER == d0.ISENABLER
                &&& c.PMR.writes() == c0.PMR.writes().push(GICC_PMR_PRIORITY)
                &&& c.CTLR.writes() == c0.CTLR.writes().push(GICC_CTLR_ENABLE)
                &&& c.EOIR == c0.EOIR
                &&& c.IAR == c0.IAR
            }),
            final(self).iar == old(self).iar,
    {
        let mut d = self.GICD.take().unwrap();
        let mut c = self.GICC.take().unwrap();
        let mut log = self.log;
        let ghost d0 = d;
        let ghost c0 = c;
        let ghost log0 = log@;
        write_dist(&mut d, &mut log, GicReg::DistributorControl, 0, GICD_CTLR_DISABLE);
        let ghost d1 = d;
        proof {
            assert(log@ =~= log0 + seq![(GicReg::DistributorControl, 0int, GICD_CTLR_DISABLE)] + clear_writes(0));
        }
        let mut n: usize = 0;
        while n < IRQ_LINES / 32
            invariant
                n <= IRQ_LINES / 32,
                gicd_wf(d),
                d.CTLR == d1.CTLR,
                d1.CTLR.writes() == d0.CTLR.writes().push(GICD_CTLR_DISABLE),
                written_prefix(d0.ICENABLER@, d.ICENABLER@, n as int, 0xffff_ffff),
                written_prefix(d0.ICPENDR@, d.ICPENDR@, n as int, 0xffff_ffff),
                written_prefix(d0.ICACTIVER@, d.ICACTIVER@, n as int, 0xffff_ffff),
                d.IPRIORITYR == d0.IPRIORITYR,
                d.ITARGETSR == d0.ITARGETSR,
                d.ICFGR == d0.ICFGR,
                d.ISENABLER == d0.ISENABLER,
                gicd_wf(d0),
                log@ == log0 + seq![(GicReg::DistributorControl, 0int, GICD_CTLR_DISABLE)] + clear_writes(n as nat),
            decreases IRQ_LINES / 32 - n,
        {
            let ghost da = d;
            write_dist(&mut d, &mut log, GicReg::ClearEnable, n, 0xffff_ffff);
            let ghost db = d;
            assert(written_prefix(d0.ICENABLER@, db.ICENABLER@, n + 1, 0xffff_ffff)) by {
                assert forall|k: int| 0 <= k < n + 1 implies #[trigger] db.ICENABLER@[k].writes()
                    == d0.ICENABLER@[k].writes().push(0xffff_ffff) && db.ICENABLER@[k]@ == 0xffff_ffffu32 by {
                    if k < n {
                        assert(db.ICENABLER@[k] == da.ICENABLER@[k]);
                    }
                }
            }
            write_dist(&mut d, &mut log, GicReg::ClearPending, n, 0xffff_ffff);
            write_dist(&mut d, &mut log, GicReg::ClearActive, n, 0xffff_ffff);
            proof {
                assert(log@ =~= log0 + seq![(GicReg::DistributorControl, 0int, GICD_CTLR_DISABLE)] + clear_writes((n + 1) as nat));
            }
            n = n + 1;
        }
        let ghost log1 = log@;
        n = 0;
        while n < IRQ_LINES / 4
            invariant
                n <= IRQ_LINES / 4,
                gicd_wf(d),
                d.CTLR == d1.CTLR,
                written_prefix(d0.ICENABLER@, d.ICENABLER@, (IRQ_LINES / 32) as int, 0xffff_ffff),
                written_prefix(d0.ICPENDR@, d.ICPENDR@, (IRQ_LINES / 32) as int, 0xffff_ffff),
                written_prefix(d0.ICACTIVER@, d.ICACTIVER@, (IRQ_LINES / 32) as int, 0xffff_ffff),
                written_prefix(d0.IPRIORITYR@, d.IPRIORITYR@, n as int, PRIORITY_ALL),
                written_prefix(d0.ITARGETSR@, d.ITARGETSR@, n as int, TARGET_CORE0_ALL),
                d.ICFGR == d0.ICFGR,
                d.ISENABLER == d0.ISENABLER,
                gicd_wf(d0),
                log@ == log1 + route_writes(n as nat),
            decreases IRQ_LINES / 4 - n,
        {
            write_dist(&mut d, &mut log, GicReg::Priority, n, PRIORITY_ALL);
            write_dist(&mut d, &mut log, GicReg::Target, n, TARGET_CORE0_ALL);
            proof {
                assert(log@ =~= log1 + route_writes((n + 1) as nat));
            }
            n = n + 1;
        }
        let ghost log2 = log@;
        n = 0;
        while n < IRQ_LINES / 16
            invariant
                n <= IRQ_LINES / 16,
                gicd_wf(d),
                d.CTLR == d1.CTLR,
                written_prefix(d0.ICENABLER@, d.ICENABLER@, (IRQ_LINES / 32) as int, 0xffff_ffff),
                written_prefix(d0.ICPENDR@, d.ICPENDR@, (IRQ_LINES / 32) as int, 0xffff_ffff),
                written_prefix(d0.ICACTIVER@, d.ICACTIVER@, (IRQ_LINES / 32) as int, 0xffff_ffff),
                written_prefix(d0.IPRIORITYR@, d.IPRIORITYR@, (IRQ_LINES / 4) as int, PRIORITY_ALL),
                written_prefix(d0.ITARGETSR@, d.ITARGETSR@, (IRQ_LINES / 4) as int, TARGET_CORE0_ALL),
                written_prefix(d0.ICFGR@, d.ICFGR@, n as int, 0),
                d.ISENABLER == d0.ISENABLER,
                gicd_wf(d0),
                log@ == log2 + config_writes(n as nat),
            decreases IRQ_LINES / 16 - n,
        {
            write_dist(&mut d, &mut log, GicReg::Config, n, 0);
            n = n + 1;
        }
        let ghost log3 = log@;
        write_dist(&mut d, &mut log, GicReg::DistributorControl, 0, GICD_CTLR_ENABLE);
        write_cpu(&mut c, &mut log, GicReg::PriorityMask, GICC_PMR_PRIORITY);
        write_cpu(&mut c, &mut log, GicReg::CpuControl, GICC_CTLR_ENABLE);
        proof {
            assert(d.CTLR.writes() =~= d0.CTLR.writes() + seq![GICD_CTLR_DISABLE, GICD_CTLR_ENABLE]);
            assert(log@ =~= log0 + init_writes());
        }
        self.GICD = Some(d);
        self.GICC = Some(c);
        self.log = log;
    }

    /// Acknowledges the pending interrupt: reads the acknowledge register,
    /// keeps its value for the end of the interrupt, and returns the
    /// interrupt's id.
    pub fn get_active_irq(&mut self) -> (r: usize)
        requires
            old(self).GICC is Some,
        ensures
            final(self).iar == old(self).GICC->0.IAR@,
            r == old(self).GICC->0.IAR@ & IAR_INTERRUPT_ID_MASK,
            final(self).GICC == old(self).GICC,
            final(self).GICD == old(self).GICD,
            final(self).log == old(self).log,
    {
        let iar = self.GICC.as_ref().unwrap().IAR.get();
        self.iar = iar;
        (iar & IAR_INTERRUPT_ID_MASK) as usize
    }

    /// Enables line `irq`: sets its bit in its set-enable word, the one
    /// write the log gains.
    pub fn enable_irq(&mut self, irq: usize)
        requires
            old(self).GICD is Some,
            irq / 32 < old(self).GICD->0.ISENABLER@.len(),
        ensures
            final(self).GICD is Some,
            ({
                let before = old(self).GICD->0.ISENABLER@;
                let after = final(self).GICD->0.ISENABLER@;
                &&& after.len() == before.len()
                &&& after[(irq / 32) as int].writes() == before[(irq / 32) as int].writes().push(1u32 << ((irq % 32) as u32))
                &&& forall|k: int| 0 <= k < before.len() && k != irq / 32 ==> #[trigger] after[k] == before[k]
            }),
            final(self).log@ == old(self).log@.push((GicReg::SetEnable, (irq / 32) as int, 1u32 << ((irq % 32) as u32))),
            final(self).GICC == old(self).GICC,
            final(self).iar == old(self).iar,
    {
        let mut d = self.GICD.take().unwrap();
        let mut log = self.log;
        let shift: usize = irq % 32;
        let bit: u32 = 1u32 << (shift as u32);
        write_dist(&mut d, &mut log, GicReg::SetEnable, irq / 32, bit);
        self.GICD = Some(d);
        self.log = log;
    }

    /// Ends the interrupt last acknowledged: writes its acknowledge value to
    /// the end-of-interrupt register, the one write the log gains.
    pub fn notify_end_of_interrupt(&mut self)
        requires
            old(self).GICC is Some,
        ensures
            final(self).GICC is Some,
            final(self).GICC->0.EOIR.writes() == old(self).GICC->0.EOIR.writes().push(old(self).iar),
            final(self).GICC->0.IAR == old(self).GICC->0.IAR,
            final(self).GICC->0.PMR == old(self).GICC->0.PMR,
            final(self).GICC->0.CTLR == old(self).GICC->0.CTLR,
            final(self).log@ == old(self).log@.push((GicReg::EndOfInterrupt, 0int, old(self).iar)),
            final(self).GICD == old(self).GICD,
            final(self).iar == old(self).iar,
    {
        let mut c = self.GICC.take().unwrap();
        let mut log = self.log;
        write_cpu(&mut c, &mut log, GicReg::EndOfInterrupt, self.iar);
        self.GICC = Some(c);
        self.log = log;
    }
}

/// The timer ticks between two timer interrupts, for a counter running at
/// `frequency` ticks a second.
pub fn timer_ticks(frequency: u64) -> (r: u64)
    ensures
        r == frequency / TIMER_INTERRUPT_FREQUENCY,
{
    frequency / TIMER_INTERRUPT_FREQUENCY
}

/// The interrupt-driven timer.
pub struct GICTimer;

impl GICTimer {
    /// Starts the timer on line `irq` of `gic`, for a counter running at
    /// `frequency` ticks a second: the line is enabled, and the count to
    /// load into the timer before enabling it is returned.
    pub fn start_timer(&self, gic: &mut GIC, irq: usize, frequency: u64) -> (r: u64)
        requires
            old(gic).GICD is Some,
            irq / 32 < old(gic).GICD->0.ISENABLER@.len(),
        ensures
            r == frequency / TIMER_INTERRUPT_FREQUENCY,
            final(gic).GICD is Some,
            ({
                let before = old(gic).GICD->0.ISENABLER@;
                let after = final(gic).GICD->0.ISENABLER@;
                &&& after.len() == before.len()
                &&& after[(irq / 32) as int].writes() == before[(irq / 32) as int].writes().push(1u32 << ((irq % 32) as u32))
                &&& forall|k: int| 0 <= k < before.len() && k != irq / 32 ==> #[trigger] after[k] == before[k]
            }),
            final(gic).log@ == old(gic).log@.push((GicReg::SetEnable, (irq / 32) as int, 1u32 << ((irq % 32) as u32))),
            final(gic).GICC == old(gic).GICC,
    {
        gic.enable_irq(irq);
        timer_ticks(frequency)
    }
}

} // verus!

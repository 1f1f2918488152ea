use proton::gic::{timer_ticks, GICTimer, GICC, GICD, GIC, PRIORITY_ALL, TARGET_CORE0_ALL};
use proton::volatile::Volatile;

fn cells(n: usize) -> Vec<Volatile<u32>> {
    (0..n).map(|_| Volatile::new(0)).collect()
}

fn gic() -> GIC {
    let mut g = GIC::new();
    g.GICD = Some(GICD {
        CTLR: Volatile::new(0),
        IGROUPR: cells(32),
        ISENABLER: cells(32),
        ICENABLER: cells(32),
        ISPENDR: cells(32),
        ICPENDR: cells(32),
        ISACTIVER: cells(32),
        ICACTIVER: cells(32),
        IPRIORITYR: cells(248),
        ITARGETSR: cells(248),
        ICFGR: cells(62),
        SGIR: Volatile::new(0),
    });
    g.GICC = Some(GICC { CTLR: Volatile::new(0), PMR: Volatile::new(0), IAR: Volatile::new(0x41b), EOIR: Volatile::new(0) });
    g
}

#[test]
fn gic_initialisation() {
    let mut g = gic();
    g.init_gic();
    let d = g.GICD.as_ref().unwrap();
    assert_eq!(d.CTLR.get(), 1);
    assert_eq!(d.ICENABLER[7].get(), 0xffff_ffff);
    assert_eq!(d.ICENABLER[8].get(), 0);
    assert_eq!(d.IPRIORITYR[63].get(), PRIORITY_ALL);
    assert_eq!(d.IPRIORITYR[64].get(), 0);
    assert_eq!(d.ITARGETSR[0].get(), TARGET_CORE0_ALL);
    let c = g.GICC.as_ref().unwrap();
    assert_eq!(c.PMR.get(), 0xf0);
    assert_eq!(c.CTLR.get(), 1);
}

#[test]
fn gic_acknowledge_and_end() {
    let mut g = gic();
    assert_eq!(g.get_active_irq(), 0x1b);
    assert_eq!(g.iar, 0x41b);
    g.notify_end_of_interrupt();
    assert_eq!(g.GICC.as_ref().unwrap().EOIR.get(), 0x41b);
    g.enable_irq(33);
    assert_eq!(g.GICD.as_ref().unwrap().ISENABLER[1].get(), 2);
}

#[test]
fn timer_period() {
    assert_eq!(timer_ticks(62_500_000), 1_041_666);
    assert_eq!(timer_ticks(59), 0);
}

#[test]
fn timer_start_enables_its_line() {
    let mut g = gic();
    assert_eq!(GICTimer.start_timer(&mut g, 30, 62_500_000), 1_041_666);
    assert_eq!(g.GICD.as_ref().unwrap().ISENABLER[0].get(), 1 << 30);
}

//! The BCM2711 GPIO block: routes pins 14 and 15 to the serial port.
use vstd::prelude::*;
use crate::volatile::Volatile;

verus! {

/// Function select 1: pins 14 and 15 in alternate function 0.
pub const GPFSEL1_UART: u32 = 0x24000;

/// Pull-up/down clock 0: pins 14 and 15.
pub const GPPUDCLK0_UART: u32 = 0xc000;

/// The cycles to wait after each pull-up/down step.
pub const SETTLE_CYCLES: usize = 150;

/// The register block of the GPIO controller.
pub struct GPIORegisters {
    pub gpfsel0: Volatile<u32>,
    pub gpfsel1: Volatile<u32>,
    pub gpfsel2: Volatile<u32>,
    pub gpfsel3: Volatile<u32>,
    pub gpfsel4: Volatile<u32>,
    pub gpfsel5: Volatile<u32>,
    pub gpset0: Volatile<u32>,
    pub gpset1: Volatile<u32>,
    pub gpclr0: Volatile<u32>,
    pub gpclr1: Volatile<u32>,
    pub gplev0: Volatile<u32>,
    pub gplev1: Volatile<u32>,
    pub gpeds0: Volatile<u32>,
    pub gpeds1: Volatile<u32>,
    pub gpren0: Volatile<u32>,
    pub gpren1: Volatile<u32>,
    pub gpfen0: Volatile<u32>,
    pub gpfen1: Volatile<u32>,
    pub gphen0: Volatile<u32>,
    pub gphen1: Volatile<u32>,
    pub gplen0: Volatile<u32>,
    pub gplen1: Volatile<u32>,
    pub gparen0: Volatile<u32>,
    pub gparen1: Volatile<u32>,
    pub gpafen0: Volatile<u32>,
    pub gpafen1: Volatile<u32>,
    pub gppud: Volatile<u32>,
    pub gppudclk0: Volatile<u32>,
    pub gppudclk1: Volatile<u32>,
}

/// One step of the pin set-up, in the order the controller sees them.
pub enum GpioStep {
    /// A write to function select 1.
    SelectFunctions(u32),
    /// A write to the pull-up/down control.
    PullUpDown(u32),
    /// A wait of so many cycles.
    Wait(usize),
    /// A write to pull-up/down clock 0.
    ClockPullUpDown(u32),
}

/// The set-up that routes the serial pins.
pub open spec fn uart_pin_setup() -> Seq<GpioStep> {
    seq![
        GpioStep::SelectFunctions(GPFSEL1_UART),
        GpioStep::PullUpDown(0),
        GpioStep::Wait(SETTLE_CYCLES),
        GpioStep::ClockPullUpDown(GPPUDCLK0_UART),
        GpioStep::Wait(SETTLE_CYCLES),
        GpioStep::ClockPullUpDown(0),
    ]
}

/// The GPIO controller; it has no registers until the device is found.
#[allow(non_camel_case_types)]
pub struct BCM2177_GPIO {
    pub gpio: Option<GPIORegisters>,
    /// The steps done so far.
    pub steps: Ghost<Seq<GpioStep>>,
}

impl BCM2177_GPIO {
    /// A controller with no device behind it yet.
    pub fn new() -> (r: Self)
        ensures
            r.gpio is None,
            r.steps@ == Seq::<GpioStep>::empty(),
    {
        BCM2177_GPIO { gpio: None, steps: Ghost(Seq::empty()) }
    }

    /// Attaches the controller to its register block.
    pub fn attach(&mut self, regs: GPIORegisters)
        ensures
            final(self).gpio == Some(regs),
            final(self).steps == old(self).steps,
    {
        self.gpio = Some(regs);
    }

    /// Busy-waits for `n` cycles.
    fn wait_cycles(&mut self, n: usize)
        ensures
            final(self).gpio == old(self).gpio,
            final(self).steps@ == old(self).steps@.push(GpioStep::Wait(n)),
    {
        let mut i: usize = 0;
        while i < n
            invariant
                i <= n,
            decreases n - i,
        {
            i = i + 1;
        }
        self.steps = Ghost(self.steps@.push(GpioStep::Wait(n)));
    }

    /// Routes pins 14 and 15 to the serial port, with pull-up/down off.
    pub fn init_gpio(&mut self)
        requires
            old(self).gpio is Some,
        ensures
            final(self).gpio is Some,
            final(self).steps@ == old(self).steps@ + uart_pin_setup(),
            final(self).gpio.unwrap().gpfsel1.writes() == old(self).gpio.unwrap().gpfsel1.writes().push(
                GPFSEL1_UART,
            ),
            final(self).gpio.unwrap().gppud.writes() == old(self).gpio.unwrap().gppud.writes().push(
                0,
            ),
            final(self).gpio.unwrap().gppudclk0.writes() == old(self).gpio.unwrap().gppudclk0.writes()
                + seq![GPPUDCLK0_UART, 0u32],
    {
        let mut gpio = self.gpio.take().unwrap();
        gpio.gpfsel1.set(GPFSEL1_UART);
        self.steps = Ghost(self.steps@.push(GpioStep::SelectFunctions(GPFSEL1_UART)));
        gpio.gppud.set(0);
        self.steps = Ghost(self.steps@.push(GpioStep::PullUpDown(0)));
        self.wait_cycles(SETTLE_CYCLES);
        gpio.gppudclk0.set(GPPUDCLK0_UART);
        self.steps = Ghost(self.steps@.push(GpioStep::ClockPullUpDown(GPPUDCLK0_UART)));
        self.wait_cycles(SETTLE_CYCLES);
        gpio.gppudclk0.set(0);
        self.steps = Ghost(self.steps@.push(GpioStep::ClockPullUpDown(0)));
        self.gpio = Some(gpio);
        proof {
            assert(self.steps@ =~= old(self).steps@ + uart_pin_setup());
        }
    }
}

} // verus!

use proton::address::{Address, Physical, Virtual};
use proton::gpio::{GPIORegisters, BCM2177_GPIO, GPFSEL1_UART};
use proton::pl011::{PL011, UART0 as Pl011Uart, UARTLogger};
use proton::uart::{Log, UARTRegisters, UART0};
use proton::virtio_mmio::{
    DeviceStatus, DeviceType, IpAddress, MacAddress, VirtIOHeader, VirtIONetConfig, FEATURE_MAC, STATUS_ACKNOWLEDGE, AccessLog, STATUS_DRIVER,
    STATUS_DRIVER_OK,
};
use proton::virtio_net::{ipv4_checksum, Buffer, RxBuffer, VirtIONet, VirtIONetDevice};
use proton::virtio_mmio::VirtIONetHeader;
use proton::virtio_queue::{VirtQueue, VirtQueueDescFlags, VirtQueueUsedElem};
use proton::volatile::{Volatile, WriteLog};

fn v() -> Volatile<u32> {
    Volatile::new(0)
}

fn uart_regs() -> UARTRegisters {
    UARTRegisters {
        dr: v(), rsrecr: v(), fr: v(), ilpr: v(), ibrd: v(), fbrd: v(), lcrh: v(), cr: v(),
        ifls: v(), imsc: v(), ris: v(), mis: v(), icr: v(), dmacr: v(), log: WriteLog::new(),
    }
}

fn pl011_regs(fr: u32) -> Pl011Uart {
    Pl011Uart {
        dr: v(), rsrecr: v(), fr: Volatile::new(fr), ilpr: v(), ibrd: v(), fbrd: v(), lcrh: v(),
        cr: v(), ifls: v(), imsc: v(), ris: v(), mis: v(), icr: v(), dmacr: v(), log: WriteLog::new(),
    }
}

#[test]
fn volatile_cell_reads_what_was_written() {
    let mut c = Volatile::new(3u32);
    assert_eq!(c.get(), 3);
    c.set(9);
    assert_eq!(c.get(), 9);
    c.update(|x| x * 2);
    assert_eq!(c.get(), 18);
}

#[test]
fn boot_uart_init_and_output() {
    let mut u = UART0::new();
    u.attach(uart_regs());
    u.init_uart();
    let regs = u.uart.as_ref().unwrap();
    assert_eq!(regs.cr.get(), 0x301);
    assert_eq!(regs.ibrd.get(), 26);
    assert_eq!(regs.fbrd.get(), 3);
    assert_eq!(regs.lcrh.get(), 0x70);
    assert!(!u.transmit_fifo_full());
    u.putchar('A');
    assert_eq!(u.uart.as_ref().unwrap().dr.get(), 'A' as u32);
    Log.write_str(&mut u, "hi");
    assert_eq!(u.uart.as_ref().unwrap().dr.get(), 'i' as u32);
}

#[test]
fn boot_uart_fifo_flags() {
    let mut regs = uart_regs();
    regs.fr.set(0x20);
    let mut u = UART0::new();
    u.attach(regs);
    assert!(u.transmit_fifo_full());
    assert!(!u.receive_fifo_empty());
}

#[test]
fn serial_terminal_input() {
    let mut t = PL011 { uart: pl011_regs(0x10), buffer: Vec::new() };
    assert!(t.uart.receive_fifo_empty());
    assert_eq!(t.uart.getchar(&mut t.buffer, false), None);
    t.receive(b'a');
    t.receive(b'\r');
    t.receive(b'z');
    let mut buf = [0u8; 2];
    assert_eq!(t.read(0, &mut buf), Some(2));
    assert_eq!(&buf, b"a\n");
    assert_eq!(t.buffer, vec![b'z']);
    assert_eq!(t.uart.getchar(&mut t.buffer, true), Some('z'));
    assert_eq!(t.name(), "tty.serial");
}

#[test]
fn serial_terminal_output() {
    let mut t = PL011 { uart: pl011_regs(0), buffer: Vec::new() };
    t.uart.init();
    assert_eq!(t.uart.lcrh.get(), 0x60);
    assert_eq!(t.uart.imsc.get(), 0x10);
    assert_eq!(t.write(0, b"ok\n"), Some(3));
    assert_eq!(t.uart.dr.get(), b'\n' as u32);
    assert_eq!(UARTLogger.log(&mut t.uart, "x\n"), Ok(()));
    assert_eq!(t.uart.dr.get(), b'\n' as u32);
}

#[test]
fn gpio_routes_serial_pins() {
    let regs = GPIORegisters {
        gpfsel0: v(), gpfsel1: v(), gpfsel2: v(), gpfsel3: v(), gpfsel4: v(), gpfsel5: v(),
        gpset0: v(), gpset1: v(), gpclr0: v(), gpclr1: v(), gplev0: v(), gplev1: v(),
        gpeds0: v(), gpeds1: v(), gpren0: v(), gpren1: v(), gpfen0: v(), gpfen1: v(),
        gphen0: v(), gphen1: v(), gplen0: v(), gplen1: v(), gparen0: v(), gparen1: v(),
        gpafen0: v(), gpafen1: v(), gppud: v(), gppudclk0: v(), gppudclk1: v(),
    };
    let mut g = BCM2177_GPIO::new();
    assert!(g.gpio.is_none());
    g.attach(regs);
    g.init_gpio();
    let r = g.gpio.as_ref().unwrap();
    assert_eq!(r.gpfsel1.get(), GPFSEL1_UART);
    assert_eq!(GPFSEL1_UART, (0b100 << 12) | (0b100 << 15));
    assert_eq!(r.gppud.get(), 0);
    assert_eq!(r.gppudclk0.get(), 0);
}

fn header(features: (u32, u32)) -> VirtIOHeader {
    VirtIOHeader {
        magic: Volatile::new(0x7472_6976), version: v(), device_id: Volatile::new(1), vendor_id: v(),
        device_features: vec![Volatile::new(features.0), Volatile::new(features.1)],
        device_features_sel: v(), driver_features: v(), driver_features_sel: v(),
        guest_page_size: v(), queue_sel: v(),
        queue_num_max: vec![Volatile::new(128), Volatile::new(128)],
        queue_num: v(), queue_align: v(), queue_pfn: v(),
        queue_ready: vec![v(), v()],
        queue_notify: v(), interrupt_status: v(), interrupt_ack: v(),
        status: Volatile::new(DeviceStatus::from_bits(0)),
        queue_desc_low: v(), queue_desc_high: v(), queue_avail_low: v(), queue_avail_high: v(),
        queue_used_low: v(), queue_used_high: v(), shm_sel: v(), shm_sel_len_low: v(),
        shm_sel_len_high: v(), shm_sel_base_low: v(), shm_sel_base_high: v(), config_generation: v(),
        log: AccessLog::new(),
        features_accepted: true,
    }
}

fn queue(base: usize) -> VirtQueue {
    VirtQueue::new(Address::new(base), Address::new(base + 0x1000), Address::new(base + 0x2000))
}

#[test]
fn virtio_header_protocol() {
    let mut h = header((0x25, 0x1));
    assert!(h.is_present());
    assert_eq!(h.device_type(), Some(DeviceType::Network));
    h.start_initialization();
    assert_eq!(h.status.get().bits, STATUS_ACKNOWLEDGE | STATUS_DRIVER);
    assert_eq!(h.get_device_features(), 0x1_0000_0025);
    h.set_device_features(0x2_0000_0020);
    assert_eq!(h.driver_features.get(), 2);
    assert_eq!(h.driver_features_sel.get(), 1);
    let q = queue(0x1_2345_0000);
    h.set_queue(1, &q);
    assert_eq!(h.queue_sel.get(), 1);
    assert_eq!(h.queue_num.get(), 128);
    assert_eq!(h.queue_desc_low.get(), 0x2345_0000);
    assert_eq!(h.queue_desc_high.get(), 1);
    assert_eq!(h.queue_used_low.get(), 0x2345_2000);
    assert_eq!(h.queue_ready[1].get(), 1);
    assert_eq!(h.queue_ready[0].get(), 0);
    h.notify(1);
    assert_eq!(h.queue_notify.get(), 1);
    h.finish_initialization();
    assert_eq!(h.status.get().bits, STATUS_ACKNOWLEDGE | STATUS_DRIVER | STATUS_DRIVER_OK);
}

#[test]
fn virtio_device_types() {
    let mut h = header((0, 0));
    h.device_id.set(9);
    assert_eq!(h.device_type(), Some(DeviceType::NinePTransport));
    h.device_id.set(11);
    assert_eq!(h.device_type(), None);
    h.device_id.set(0);
    assert!(!h.is_present());
}

#[test]
fn virtqueue_descriptors() {
    let mut q = queue(0x10000);
    assert_eq!(q.size(), 128);
    assert_eq!(q.desc_start().as_usize(), 0x10000);
    assert_eq!(q.avail_start().as_usize(), 0x11000);
    assert_eq!(q.used_start().as_usize(), 0x12000);
    let d0 = q.push(Address::new(0x5000), 12, VirtQueueDescFlags::next());
    let d1 = q.push(Address::new(0x6000), 8, VirtQueueDescFlags::none());
    assert_eq!((d0, d1), (0, 1));
    assert_eq!(q.desc[0].len, 12);
    assert_eq!(q.desc[1].addr.as_usize(), 0x6000);
    q.update_avail(0);
    assert_eq!(q.avail.index, 1);
    assert_eq!(q.avail.ring[0], 0);
}

fn buffers() -> Vec<RxBuffer> {
    (0..64usize)
        .map(|i| RxBuffer {
            header: Buffer { phys: Address::<Physical>::new(0x100000 + i * 0x2000), virt: Address::<Virtual>::new(0x900000 + i * 0x2000), len: 12 },
            data: Buffer { phys: Address::<Physical>::new(0x101000 + i * 0x2000), virt: Address::<Virtual>::new(0x901000 + i * 0x2000), len: 4096 },
        })
        .collect()
}

#[test]
fn network_device_bring_up() {
    let h = header((0x25, 0x4000_0000));
    let config = VirtIONetConfig {
        mac: Volatile::new([1, 2, 3, 4, 5, 6]),
        status: Volatile::new(1),
        max_virtqueue_pairs: Volatile::new(1),
        mtu: Volatile::new(1500),
    };
    let dev = VirtIONetDevice::init(h, config, queue(0x20000), queue(0x30000), &buffers()).ok().unwrap();
    assert_eq!(dev.header.driver_features.get(), 0);
    assert_eq!(dev.header.status.get().bits, 0xf);
    assert_eq!(dev.tx.avail.flags, 1);
    assert_eq!(dev.rx.avail.index, 64);
    assert_eq!(dev.rx.desc[2].addr.as_usize(), 0x102000);
    assert_eq!(dev.rx.desc[2].next, 3);
    assert_eq!(dev.rx.desc[2].flags.bits, 3);
    assert_eq!(dev.rx.desc[3].flags.bits, 2);
    assert_eq!(dev.rx.desc_virtual_ptrs[3].as_usize(), 0x903000);
    assert_eq!(dev.header.queue_notify.get(), 0);
    assert_eq!(dev.config.mac().0, [1, 2, 3, 4, 5, 6]);
    assert_eq!(dev.config.status(), 1);
    let mut net = VirtIONet::new();
    assert_eq!(net.mac.0, [0xff; 6]);
    net.attach(dev, 33);
    assert_eq!(net.mac.index(5), 6);
    assert_eq!(net.irq, 33);
}

#[test]
fn network_device_refusing_the_features_is_refused() {
    let mut h = header((0x25, 0));
    h.features_accepted = false;
    let config = VirtIONetConfig {
        mac: Volatile::new([1, 2, 3, 4, 5, 6]),
        status: Volatile::new(1),
        max_virtqueue_pairs: Volatile::new(1),
        mtu: Volatile::new(1500),
    };
    assert!(VirtIONetDevice::init(h, config, queue(0x20000), queue(0x30000), &buffers()).is_err());
}

#[test]
fn network_send_queues_two_descriptors() {
    let h = header((FEATURE_MAC as u32, 0));
    let config = VirtIONetConfig { mac: Volatile::new([0; 6]), status: v16(), max_virtqueue_pairs: v16(), mtu: v16() };
    let mut dev = VirtIONetDevice::init(h, config, queue(0x20000), queue(0x30000), &buffers()).ok().unwrap();
    let hdr = Buffer { phys: Address::new(0x7000), virt: Address::new(0x7000), len: 12 };
    let data = Buffer { phys: Address::new(0x8000), virt: Address::new(0x8000), len: 300 };
    assert_eq!(dev.send(hdr, data), (0, 1));
    assert_eq!(dev.tx.desc[0].next, 1);
    assert_eq!(dev.tx.desc[0].flags.bits, 1);
    assert_eq!(dev.tx.desc[1].len, 300);
    assert_eq!(dev.tx.avail.ring[0], 0);
    assert_eq!(dev.header.queue_notify.get(), 1);
}

fn v16() -> Volatile<u16> {
    Volatile::new(0)
}

#[test]
fn net_header_defaults_to_zero() {
    let h = VirtIONetHeader::default();
    assert_eq!(h.flags.bits, 0);
    assert_eq!(h.num_buffers, 0);
    assert_eq!(MacAddress::broadcast().0, [0xff; 6]);
}

#[test]
fn ipv4_header_checksum() {
    // The example header of RFC 1071 style: 4500 0073 0000 4000 4011 0000 c0a8 0001 c0a8 00c7.
    let words = [0x4500u16, 0x0073, 0x0000, 0x4000, 0x4011, 0x0000, 0xc0a8, 0x0001, 0xc0a8, 0x00c7];
    assert_eq!(ipv4_checksum(&words), 0xb861);
    let mut filled = words;
    filled[5] = 0xb861;
    assert_eq!(ipv4_checksum(&filled), 0);
    assert_eq!(ipv4_checksum(&[0u16; 10]), 0xffff);
}

#[test]
fn dhcp_discover_packet() {
    let mut net = VirtIONet::new();
    net.mac = MacAddress([0x52, 0x54, 0, 0x12, 0x34, 0x56]);
    let f = net.dhcp_discover();
    assert_eq!(f.destination.0, [0xff; 6]);
    assert_eq!(f.source.0, [0x52, 0x54, 0, 0x12, 0x34, 0x56]);
    assert_eq!(f.kind, 0x0008);
    let ip = &f.payload;
    assert_eq!(ip.version_ihl, 0x45);
    assert_eq!(ip.length, 275u16.to_be());
    assert_eq!(ip.ident, 1u16.to_be());
    assert_eq!(ip.destination, 0xffff_ffff);
    let words = [0x4500u16, 275, 1, 0x4000, 0x4011, 0, 0, 0, 0xffff, 0xffff];
    assert_eq!(ip.checksum, ipv4_checksum(&words));
    let udp = &ip.payload;
    assert_eq!(udp.source_port, 68u16.to_be());
    assert_eq!(udp.destination_port, 67u16.to_be());
    assert_eq!(udp.length, 255u16.to_be());
    let d = &udp.payload;
    assert_eq!((d.op, d.htype, d.hlen, d.xid), (1, 1, 6, 0x1337));
    assert_eq!(d.magic, 0x63825363u32.to_be());
    assert_eq!(&d.chaddr[..6], &[0x52, 0x54, 0, 0x12, 0x34, 0x56]);
    assert_eq!(&d.options[..7], &[99, 130, 83, 88, 53, 1, 3]);
}

#[test]
fn arp_request_packet() {
    let net = VirtIONet::new();
    let f = net.arp_ask(IpAddress(172, 217, 167, 110));
    assert_eq!(f.kind, 0x0608);
    assert_eq!(f.payload.op, 0x0100);
    assert_eq!(f.payload.hwsize, 6);
    assert!(f.payload.target_ip == IpAddress(172, 217, 167, 110));
}

#[test]
fn network_receive_finds_the_data_buffer() {
    let h = header((FEATURE_MAC as u32, 0));
    let config = VirtIONetConfig { mac: Volatile::new([0; 6]), status: v16(), max_virtqueue_pairs: v16(), mtu: v16() };
    let mut dev = VirtIONetDevice::init(h, config, queue(0x20000), queue(0x30000), &buffers()).ok().unwrap();
    // The device used the chain of descriptors 4 and 5 (the third buffer).
    dev.rx.used.ring[0] = VirtQueueUsedElem { id: 4, len: 60 };
    assert_eq!(dev.recv_one().as_usize(), 0x905000);
    dev.header.interrupt_status.set(1);
    assert_eq!(dev.ack_interrupt(), 1);
    assert_eq!(dev.header.interrupt_ack.get(), 1);
}

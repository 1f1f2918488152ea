//! The virtio network driver: device set-up, receive buffers, sending, and
//! the IPv4 header checksum.
use vstd::prelude::*;
use crate::address::{Address, Physical, Virtual};
use crate::virtio_mmio::{reported_status, NetHeaderFlags, NetHeaderGsoType, VirtIONetHeader, 
    features_word, high_half, low_half, queue_accesses, read_features_accesses, status, write_features_accesses, Access, DeviceStatus, Reg, IpAddress, MacAddress, VirtIOHeader,
    VirtIONetConfig, FEATURE_MAC, STATUS_ACKNOWLEDGE, STATUS_DRIVER, STATUS_DRIVER_OK,
    STATUS_FEATURES_OK, STATUS_RESET,
};
use crate::virtio_queue::{VirtQueue, VirtQueueDesc, VirtQueueDescFlags, QUEUE_SIZE};

verus! {

/// The receive queue's index on the device.
pub const RX_QUEUE: u32 = 0;

/// The transmit queue's index on the device.
pub const TX_QUEUE: u32 = 1;

/// The number of receive buffers: each takes two descriptors.
pub const RX_BUFFERS: usize = 64;

/// A buffer in memory the device can use: where it is for the device and
/// for the kernel, and how many bytes it spans.
#[derive(Clone, Copy)]
pub struct Buffer {
    pub phys: Address<Physical>,
    pub virt: Address<Virtual>,
    pub len: u32,
}

/// One receive buffer: a packet header and the packet data.
#[derive(Clone, Copy)]
pub struct RxBuffer {
    pub header: Buffer,
    pub data: Buffer,
}

/// Descriptor flags: the device writes the buffer, and the chain goes on.
pub open spec fn write_next() -> u16 {
    3
}

/// A descriptor built from `b`.
pub open spec fn desc_of(b: Buffer, flags: u16, next: u16) -> VirtQueueDesc {
    VirtQueueDesc { addr: b.phys, len: b.len, flags: VirtQueueDescFlags { bits: flags }, next }
}

/// After `n` receive buffers are offered: buffer `k` fills descriptors
/// `2k` (header, chained) and `2k + 1` (data), both written by the device;
/// slot `k` of the available ring names `k`; the untouched descriptors
/// still link each to the next.
pub open spec fn rx_offered(q: VirtQueue, buffers: Seq<RxBuffer>, n: int) -> bool {
    &&& q.wf()
    &&& q.free_desc == 2 * n
    &&& q.avail.index == n
    &&& forall|k: int|
        0 <= k < n ==> #[trigger] q.desc@[2 * k] == desc_of(buffers[k].header, write_next(), (2 * k + 1) as u16)
    &&& forall|k: int|
        0 <= k < n ==> #[trigger] q.desc@[2 * k + 1] == desc_of(buffers[k].data, 2, (2 * k + 2) as u16)
    &&& forall|k: int| 0 <= k < n ==> #[trigger] q.avail.ring@[k] == k
    &&& forall|k: int|
        0 <= k < n ==> #[trigger] q.desc_virtual_ptrs@[2 * k] == buffers[k].header.virt
    &&& forall|k: int|
        0 <= k < n ==> #[trigger] q.desc_virtual_ptrs@[2 * k + 1] == buffers[k].data.virt
    &&& forall|i: int| 2 * n <= i < QUEUE_SIZE ==> #[trigger] q.desc@[i].next == i + 1
}

/// A queue as it is made: nothing handed out, the descriptors linked in
/// order, nothing offered.
pub open spec fn fresh(q: VirtQueue) -> bool {
    &&& q.wf()
    &&& q.free_desc == 0
    &&& q.avail.index == 0
    &&& forall|i: int| 0 <= i < QUEUE_SIZE ==> #[trigger] q.desc@[i].next == i + 1
}

/// A network device: its registers, configuration and two queues.
pub struct VirtIONetDevice {
    pub header: VirtIOHeader,
    pub config: VirtIONetConfig,
    pub rx: VirtQueue,
    pub tx: VirtQueue,
}

/// The status values written while bringing a network device up: each
/// step is added to those already recorded.
pub open spec fn init_status_writes() -> Seq<DeviceStatus> {
    seq![
        status(STATUS_RESET),
        status(STATUS_ACKNOWLEDGE),
        status(STATUS_ACKNOWLEDGE | STATUS_DRIVER),
        status(STATUS_ACKNOWLEDGE | STATUS_DRIVER | STATUS_FEATURES_OK),
        status(STATUS_ACKNOWLEDGE | STATUS_DRIVER | STATUS_FEATURES_OK | STATUS_DRIVER_OK),
    ]
}

/// Every access to the register block while bringing a network device up,
/// with offered feature words `low` and `high`, accepted features
/// `accepted`, receive queue `rx` and transmit queue `tx`, in order.
pub open spec fn init_accesses(low: u32, high: u32, accepted: u64, rx: VirtQueue, tx: VirtQueue) -> Seq<Access> {
    let started = STATUS_ACKNOWLEDGE | STATUS_DRIVER;
    let featured = started | STATUS_FEATURES_OK;
    seq![
        Access::Write(Reg::Status, STATUS_RESET),
        Access::Write(Reg::Status, STATUS_ACKNOWLEDGE),
        Access::Write(Reg::Status, started),
    ] + read_features_accesses(low, high) + write_features_accesses(accepted) + seq![
        Access::Read(Reg::Status, started),
        Access::Write(Reg::Status, featured),
        Access::Read(Reg::Status, featured),
    ] + queue_accesses(RX_QUEUE, rx) + queue_accesses(TX_QUEUE, tx) + seq![
        Access::Read(Reg::Status, featured),
        Access::Write(Reg::Status, featured | STATUS_DRIVER_OK),
        Access::Write(Reg::QueueNotify, RX_QUEUE),
    ]
}

impl VirtIONetDevice {
    /// Brings the device up: resets and acknowledges it, accepts only the
    /// MAC feature of those offered, checks that the device took the
    /// features, gives it the receive and transmit queues (no interrupts
    /// for sent packets), marks the driver ready, and offers the receive
    /// buffers. If the device does not keep the features-ok status, the
    /// device is refused.
    pub fn init(
        header: VirtIOHeader,
        config: VirtIONetConfig,
        rx: VirtQueue,
        tx: VirtQueue,
        buffers: &Vec<RxBuffer>,
    ) -> (r: Result<Self, ()>)
        requires
            header.wf(),
            header.queue_ready@.len() >= 2,
            header.queue_ready@[0]@ == 0,
            header.queue_ready@[1]@ == 0,
            header.queue_num_max@[0]@ != 0,
            header.queue_num_max@[1]@ != 0,
            fresh(rx),
            tx.wf(),
            buffers@.len() == RX_BUFFERS,
        ensures
            r is Err <==> !header.features_accepted,
            r matches Ok(dev) ==> ({
                let offered = features_word(header.device_features@[0]@, header.device_features@[1]@);
                let accepted = offered & FEATURE_MAC;
                &&& dev.header.log@ == header.log@ + init_accesses(
                    header.device_features@[0]@,
                    header.device_features@[1]@,
                    accepted,
                    rx,
                    dev.tx,
                )
                &&& dev.header.status.writes() == header.status.writes() + init_status_writes()
                &&& dev.header.device_features_sel.writes() == header.device_features_sel.writes()
                    + seq![0u32, 1u32]
                &&& dev.header.driver_features.writes() == header.driver_features.writes() + seq![
                    low_half(accepted),
                    high_half(accepted),
                ]
                &&& dev.header.queue_sel.writes() == header.queue_sel.writes() + seq![RX_QUEUE, TX_QUEUE]
                &&& dev.header.queue_ready@[0]@ == 1
                &&& dev.header.queue_ready@[1]@ == 1
                &&& dev.header.queue_notify.writes() == header.queue_notify.writes().push(RX_QUEUE)
                &&& dev.tx.avail.flags == 1
                &&& dev.tx.free_desc == tx.free_desc
                &&& dev.tx.desc == tx.desc
                &&& dev.tx.avail.index == tx.avail.index
                &&& rx_offered(dev.rx, buffers@, RX_BUFFERS as int)
                &&& dev.config == config
            }),
    {
        let ghost h0 = header;
        let mut header = header;
        let mut tx = tx;
        header.start_initialization();
        let accept = |f: u64| -> (r: u64)
            ensures
                r == f & FEATURE_MAC,
            { f & FEATURE_MAC };
        header.update_device_features(accept);
        proof {
            assert((1u32 | 2u32) & !8u32 == 1u32 | 2u32) by (bit_vector);
            assert(reported_status(header) == STATUS_ACKNOWLEDGE | STATUS_DRIVER);
        }
        header.add_status(STATUS_FEATURES_OK);
        proof {
            assert((STATUS_ACKNOWLEDGE | STATUS_DRIVER | STATUS_FEATURES_OK) & STATUS_FEATURES_OK == STATUS_FEATURES_OK) by (bit_vector);
            assert(((1u32 | 2u32) | 8u32) & !8u32 & 8u32 != 8u32) by (bit_vector);
        }
        let st = header.read_status();
        if !st.contains(DeviceStatus::from_bits(STATUS_FEATURES_OK)) {
            return Err(());
        }
        tx.avail.flags = 1;
        header.set_queue(RX_QUEUE, &rx);
        header.set_queue(TX_QUEUE, &tx);
        header.finish_initialization();
        proof {
            assert(header.status.writes() =~= h0.status.writes() + init_status_writes());
            assert(header.queue_sel.writes() =~= h0.queue_sel.writes() + seq![RX_QUEUE, TX_QUEUE]);
        }
        let mut me = VirtIONetDevice { header, config, rx, tx };
        me.init_rx(buffers);
        proof {
            let offered = features_word(h0.device_features@[0]@, h0.device_features@[1]@);
            assert(me.header.log@ =~= h0.log@ + init_accesses(
                h0.device_features@[0]@,
                h0.device_features@[1]@,
                offered & FEATURE_MAC,
                rx,
                tx,
            ));
        }
        Ok(me)
    }

    /// Offers the receive buffers to the device, each as a header and a
    /// data descriptor, and tells the device.
    pub fn init_rx(&mut self, buffers: &Vec<RxBuffer>)
        requires
            fresh(old(self).rx),
            buffers@.len() == RX_BUFFERS,
        ensures
            rx_offered(final(self).rx, buffers@, RX_BUFFERS as int),
            final(self).header.queue_notify.writes() == old(self).header.queue_notify.writes().push(
                RX_QUEUE,
            ),
            final(self).header.log@ == old(self).header.log@.push(Access::Write(Reg::QueueNotify, RX_QUEUE)),
            final(self).header.status == old(self).header.status,
            final(self).header.queue_ready == old(self).header.queue_ready,
            final(self).header.queue_sel == old(self).header.queue_sel,
            final(self).header.driver_features == old(self).header.driver_features,
            final(self).header.device_features_sel == old(self).header.device_features_sel,
            final(self).tx == old(self).tx,
            final(self).config == old(self).config,
    {
        let mut i: usize = 0;
        while i < RX_BUFFERS
            invariant
                i <= RX_BUFFERS,
                buffers@.len() == RX_BUFFERS,
                rx_offered(self.rx, buffers@, i as int),
                self.header == old(self).header,
                self.tx == old(self).tx,
                self.config == old(self).config,
            decreases RX_BUFFERS - i,
        {
            let b = buffers[i];
            let ghost q0 = self.rx;
            let d1 = self.rx.push(
                b.header.phys,
                b.header.len,
                VirtQueueDescFlags::write().union(VirtQueueDescFlags::next()),
            );
            let d2 = self.rx.push(b.data.phys, b.data.len, VirtQueueDescFlags::write());
            let mut d = self.rx.desc[d1];
            d.next = d2 as u16;
            self.rx.desc.set(d1, d);
            self.rx.desc_virtual_ptrs.set(d1, b.header.virt);
            self.rx.desc_virtual_ptrs.set(d2, b.data.virt);
            self.rx.update_avail(i as u16);
            proof {
                assert(2u16 | 1u16 == 3u16) by (bit_vector);
                let q = self.rx;
                assert forall|k: int| 0 <= k < i + 1 implies #[trigger] q.desc@[2 * k] == desc_of(
                    buffers@[k].header,
                    write_next(),
                    (2 * k + 1) as u16,
                ) by {
                    if k < i {
                        assert(q.desc@[2 * k] == q0.desc@[2 * k]);
                    }
                }
                assert forall|k: int| 0 <= k < i + 1 implies #[trigger] q.desc@[2 * k + 1] == desc_of(
                    buffers@[k].data,
                    2,
                    (2 * k + 2) as u16,
                ) by {
                    if k < i {
                        assert(q.desc@[2 * k + 1] == q0.desc@[2 * k + 1]);
                    }
                }
                assert forall|k: int| 0 <= k < i + 1 implies #[trigger] q.avail.ring@[k] == k by {
                    if k < i {
                        assert(q.avail.ring@[k] == q0.avail.ring@[k]);
                    }
                }
                assert forall|k: int| 0 <= k < i + 1 implies #[trigger] q.desc_virtual_ptrs@[2 * k]
                    == buffers@[k].header.virt by {
                    if k < i {
                        assert(q.desc_virtual_ptrs@[2 * k] == q0.desc_virtual_ptrs@[2 * k]);
                    }
                }
                assert forall|k: int| 0 <= k < i + 1 implies #[trigger] q.desc_virtual_ptrs@[2 * k
                    + 1] == buffers@[k].data.virt by {
                    if k < i {
                        assert(q.desc_virtual_ptrs@[2 * k + 1] == q0.desc_virtual_ptrs@[2 * k + 1]);
                    }
                }
                assert forall|j: int| 2 * (i + 1) <= j < QUEUE_SIZE implies #[trigger] q.desc@[j].next
                    == j + 1 by {
                    assert(q.desc@[j] == q0.desc@[j]);
                }
            }
            i = i + 1;
        }
        self.header.notify(RX_QUEUE);
    }

    /// Queues one packet for sending, its header and its data chained, and
    /// tells the device. Waiting for the device to use it is the caller's.
    pub fn send(&mut self, header: Buffer, data: Buffer) -> (r: (usize, usize))
        requires
            old(self).tx.wf(),
            old(self).tx.free_desc < QUEUE_SIZE,
            old(self).tx.desc@[old(self).tx.free_desc as int].next < QUEUE_SIZE,
            old(self).tx.desc@[old(self).tx.free_desc as int].next != old(self).tx.free_desc,
            old(self).tx.avail.index < QUEUE_SIZE,
        ensures
            final(self).tx.wf(),
            r.0 == old(self).tx.free_desc,
            r.1 == old(self).tx.desc@[r.0 as int].next,
            final(self).tx.desc@[r.0 as int] == desc_of(header, 1, r.1 as u16),
            final(self).tx.desc@[r.1 as int].addr == data.phys,
            final(self).tx.desc@[r.1 as int].len == data.len,
            final(self).tx.desc@[r.1 as int].flags.bits == 0,
            final(self).tx.avail.ring@[old(self).tx.avail.index as int] == r.0,
            final(self).tx.avail.index == old(self).tx.avail.index + 1,
            final(self).header.queue_notify.writes() == old(self).header.queue_notify.writes().push(
                TX_QUEUE,
            ),
            final(self).rx == old(self).rx,
    {
        let d1 = self.tx.push(header.phys, header.len, VirtQueueDescFlags::next());
        let d2 = self.tx.push(data.phys, data.len, VirtQueueDescFlags::none());
        let mut d = self.tx.desc[d1];
        d.next = d2 as u16;
        self.tx.desc.set(d1, d);
        self.tx.update_avail(d1 as u16);
        self.header.notify(TX_QUEUE);
        (d1, d2)
    }

    /// Where the data of the packet the device put at the current used
    /// index lies: the used element names the header descriptor, whose
    /// successor holds the data.
    pub fn recv_one(&self) -> (r: Address<Virtual>)
        requires
            (self.rx.used.index as int) < self.rx.used.ring@.len(),
            (self.rx.used.ring@[self.rx.used.index as int].id as int) < self.rx.desc@.len(),
            (self.rx.desc@[self.rx.used.ring@[self.rx.used.index as int].id as int].next as int)
                < self.rx.desc_virtual_ptrs@.len(),
        ensures
            r == self.rx.desc_virtual_ptrs@[self.rx.desc@[self.rx.used.ring@[self.rx.used.index as int].id as int].next as int],
    {
        let d1 = self.rx.used.ring[self.rx.used.index as usize].id;
        let d2 = self.rx.desc[d1 as usize].next;
        self.rx.desc_virtual_ptrs[d2 as usize]
    }

    /// Acknowledges the device's pending interrupts: the status read is
    /// written back to the acknowledge register. The status.
    pub fn ack_interrupt(&mut self) -> (r: u32)
        ensures
            r == old(self).header.interrupt_status@,
            final(self).header.interrupt_ack.writes() == old(self).header.interrupt_ack.writes().push(r),
            final(self).header.interrupt_status == old(self).header.interrupt_status,
            final(self).rx == old(self).rx,
            final(self).tx == old(self).tx,
    {
        let status = self.header.interrupt_status.get();
        self.header.interrupt_ack.set(status);
        status
    }
}


/// The modulus of ones'-complement arithmetic on 16-bit words.
pub const ONES_MODULUS: u32 = 0xffff;

/// The sum of the words.
pub open spec fn word_sum(ws: Seq<u16>) -> int
    decreases ws.len(),
{
    if ws.len() == 0 {
        0
    } else {
        word_sum(ws.drop_last()) + ws.last()
    }
}

/// The ones'-complement sum of 16-bit words whose plain sum is `total`: the
/// end-around-carry sum, which is zero only for a zero total.
pub open spec fn ones_sum(total: int) -> int {
    if total == 0 {
        0
    } else {
        ((total - 1) % (ONES_MODULUS as int)) + 1
    }
}

/// The IPv4 header checksum of the header words `ws`: the complement of
/// their ones'-complement sum.
pub open spec fn header_checksum(ws: Seq<u16>) -> u16 {
    ((ONES_MODULUS as int) - ones_sum(word_sum(ws))) as u16
}

/// Adding a word to a ones'-complement sum and folding the carry back in
/// gives the ones'-complement sum of the longer total.
proof fn lemma_fold_step(t: int, w: int)
    requires
        t >= 0,
        0 <= w <= 0xffff,
    ensures
        0 <= ones_sum(t) <= 0xffff,
        ({
            let s = ones_sum(t) + w;
            (if s > 0xffff { s - 0xffff } else { s }) == ones_sum(t + w)
        }),
{
    let m: int = 0xffff;
    if t == 0 {
        if w > 0 {
            vstd::arithmetic::div_mod::lemma_small_mod((w - 1) as nat, m as nat);
        }
    } else {
        let a = (t - 1) % m;
        assert(0 <= a < m);
        vstd::arithmetic::div_mod::lemma_add_mod_noop(t - 1, w, m);
        if w == m {
            vstd::arithmetic::div_mod::lemma_mod_add_multiples_vanish(0, m);
            assert(w % m == 0);
            vstd::arithmetic::div_mod::lemma_small_mod(a as nat, m as nat);
        } else {
            vstd::arithmetic::div_mod::lemma_small_mod(w as nat, m as nat);
            if a + w < m {
                vstd::arithmetic::div_mod::lemma_small_mod((a + w) as nat, m as nat);
            } else {
                vstd::arithmetic::div_mod::lemma_mod_sub_multiples_vanish(a + w, m);
                vstd::arithmetic::div_mod::lemma_small_mod((a + w - m) as nat, m as nat);
            }
        }
    }
}

/// The checksum of an IPv4 header given as its ten 16-bit words, each in
/// network byte order: the complement of the ones'-complement sum, with
/// every carry folded back in as soon as it appears.
pub fn ipv4_checksum(words: &[u16]) -> (r: u16)
    requires
        words@.len() == 10,
    ensures
        r == header_checksum(words@),
{
    let mut sum: u32 = 0;
    let mut i: usize = 0;
    while i < words.len()
        invariant
            i <= words@.len(),
            sum == ones_sum(word_sum(words@.take(i as int))),
            sum <= 0xffff,
        decreases words@.len() - i,
    {
        let x = words[i];
        proof {
            assert(words@.take(i + 1).drop_last() =~= words@.take(i as int));
            lemma_word_sum_nonneg(words@.take(i as int));
            lemma_fold_step(word_sum(words@.take(i as int)), x as int);
        }
        sum = sum + x as u32;
        if sum > 0xFFFF {
            proof {
                assert(0xFFFF < sum <= 0x1FFFE ==> (sum >> 16u32) + (sum & 0xFFFF) == sum - 0xFFFF)
                    by (bit_vector);
            }
            sum = (sum >> 16u32) + (sum & 0xFFFF);
        }
        i = i + 1;
    }
    proof {
        assert(words@.take(i as int) =~= words@);
        assert(sum <= 0xffff ==> (!(sum & 0xffff) & 0xffff) == 0xffff - sum) by (bit_vector);
    }
    (!(sum & 0xffff) & 0xffff) as u16
}

proof fn lemma_word_sum_nonneg(ws: Seq<u16>)
    ensures
        word_sum(ws) >= 0,
    decreases ws.len(),
{
    if ws.len() > 0 {
        lemma_word_sum_nonneg(ws.drop_last());
    }
}

/// Law: a header whose checksum field holds the checksum computed with the
/// field zero sums to all ones, so its checksum is zero.
pub proof fn lemma_checksum_verifies(ws: Seq<u16>)
    requires
        ws.len() == 10,
        ws[5] == 0,
    ensures
        header_checksum(ws.update(5, header_checksum(ws))) == 0,
{
    let c = header_checksum(ws);
    let filled = ws.update(5, c);
    lemma_word_sum_update(ws, 5, c);
    lemma_word_sum_nonneg(ws);
    let t = word_sum(ws);
    let m: int = 0xffff;
    lemma_fold_step(t, 0);
    assert(word_sum(filled) == t + c);
    assert(c == m - ones_sum(t));
    if t == 0 {
        vstd::arithmetic::div_mod::lemma_small_mod((m - 1) as nat, m as nat);
    } else {
        let a = (t - 1) % m;
        vstd::arithmetic::div_mod::lemma_fundamental_div_mod(t - 1, m);
        let q = (t - 1) / m;
        assert(t + c - 1 == m * q + (m - 1)) by (nonlinear_arith)
            requires
                t - 1 == m * q + a,
                c == m - (a + 1),
        ;
        vstd::arithmetic::div_mod::lemma_mod_multiples_vanish(q, m - 1, m);
        vstd::arithmetic::div_mod::lemma_small_mod((m - 1) as nat, m as nat);
    }
}

/// Changing one word changes the sum by the difference.
proof fn lemma_word_sum_update(ws: Seq<u16>, i: int, v: u16)
    requires
        0 <= i < ws.len(),
    ensures
        word_sum(ws.update(i, v)) == word_sum(ws) - ws[i] + v,
    decreases ws.len(),
{
    let u = ws.update(i, v);
    if i == ws.len() - 1 {
        assert(u.drop_last() =~= ws.drop_last());
    } else {
        lemma_word_sum_update(ws.drop_last(), i, v);
        assert(u.drop_last() =~= ws.drop_last().update(i, v));
    }
}

/// The network driver module: the MAC address it answers to, the device
/// once found, and the device's interrupt line.
pub struct VirtIONet {
    pub mac: MacAddress,
    pub net: Option<VirtIONetDevice>,
    pub irq: usize,
}

impl VirtIONet {
    /// The module before any device is found: broadcast address, no
    /// device, interrupt line zero.
    pub fn new() -> (r: Self)
        ensures
            forall|i: int| 0 <= i < 6 ==> #[trigger] r.mac.0@[i] == 0xff,
            r.net is None,
            r.irq == 0,
    {
        VirtIONet { mac: MacAddress::broadcast(), net: None, irq: 0 }
    }

    /// Records the device brought up on interrupt line `irq`, and takes
    /// its MAC address from the device's configuration.
    pub fn attach(&mut self, net: VirtIONetDevice, irq: usize)
        ensures
            final(self).mac.0 == net.config.mac@,
            final(self).net == Some(net),
            final(self).irq == irq,
    {
        self.mac = net.config.mac();
        self.net = Some(net);
        self.irq = irq;
    }
}


/// `x` with its two bytes swapped: a 16-bit value converted between host
/// (little-endian) and network byte order.
pub open spec fn swap16(x: u16) -> u16 {
    ((x % 256) * 256 + x / 256) as u16
}

/// `x` with its four bytes reversed.
pub open spec fn swap32(x: u32) -> u32 {
    ((x % 256) * 0x100_0000 + ((x / 256) % 256) * 0x1_0000 + ((x / 0x1_0000) % 256) * 256 + x / 0x100_0000) as u32
}

fn swap16_exec(x: u16) -> (r: u16)
    ensures
        r == swap16(x),
{
    (x % 256) * 256 + x / 256
}

fn swap32_exec(x: u32) -> (r: u32)
    ensures
        r == swap32(x),
{
    (x % 256) * 0x100_0000 + ((x / 256) % 256) * 0x1_0000 + ((x / 0x1_0000) % 256) * 256 + x / 0x100_0000
}

/// An Ethernet frame.
pub struct Ether<T> {
    pub destination: MacAddress,
    pub source: MacAddress,
    pub kind: u16,
    pub payload: T,
}

/// An IPv4 packet; multi-byte fields hold what the host stores.
pub struct IpV4<T> {
    pub version_ihl: u8,
    pub dscp_ecn: u8,
    pub length: u16,
    pub ident: u16,
    pub flags_fragment: u16,
    pub ttl: u8,
    pub protocol: u8,
    pub checksum: u16,
    pub source: u32,
    pub destination: u32,
    pub payload: T,
}

/// A UDP datagram.
pub struct UDP<T> {
    pub source_port: u16,
    pub destination_port: u16,
    pub length: u16,
    pub checksum: u16,
    pub payload: T,
}

/// A DHCP message.
pub struct DHCP {
    pub op: u8,
    pub htype: u8,
    pub hlen: u8,
    pub hops: u8,
    pub xid: u32,
    pub secs: u16,
    pub flags: u16,
    pub ciaddr: u32,
    pub yiaddr: u32,
    pub siaddr: u32,
    pub giaddr: u32,
    pub chaddr: [u8; 16],
    pub sname: [u8; 64],
    pub file: [u8; 128],
    pub magic: u32,
    pub options: [u8; 32],
}

/// An ARP message.
pub struct Arp {
    pub hw: u16,
    pub proto: u16,
    pub hwsize: u8,
    pub protosize: u8,
    pub op: u16,
    pub sender_mac: MacAddress,
    pub sender_ip: IpAddress,
    pub target_mac: MacAddress,
    pub target_ip: IpAddress,
}

/// The size in memory of a UDP datagram carrying a DHCP message.
pub const UDP_DHCP_BYTES: u16 = 280;

/// The size in memory of an IPv4 packet carrying such a datagram.
pub const IPV4_UDP_DHCP_BYTES: u16 = 300;

/// The options of a DHCP discover message.
pub open spec fn discover_options() -> Seq<u8> {
    seq![99u8, 130, 83, 88, 53, 1, 3]
}

/// The ten header words of an IPv4 packet in network byte order, as the
/// checksum reads them.
pub open spec fn ipv4_words<T>(p: IpV4<T>) -> Seq<u16> {
    seq![
        (p.version_ihl as u16 * 256 + p.dscp_ecn as u16) as u16,
        swap16(p.length),
        swap16(p.ident),
        swap16(p.flags_fragment),
        (p.ttl as u16 * 256 + p.protocol as u16) as u16,
        swap16(p.checksum),
        (swap32(p.source) / 0x1_0000) as u16,
        (swap32(p.source) % 0x1_0000) as u16,
        (swap32(p.destination) / 0x1_0000) as u16,
        (swap32(p.destination) % 0x1_0000) as u16,
    ]
}

fn ipv4_words_exec<T>(p: &IpV4<T>) -> (r: Vec<u16>)
    ensures
        r@ == ipv4_words(*p),
{
    let s = swap32_exec(p.source);
    let d = swap32_exec(p.destination);
    let r = vec![
        p.version_ihl as u16 * 256 + p.dscp_ecn as u16,
        swap16_exec(p.length),
        swap16_exec(p.ident),
        swap16_exec(p.flags_fragment),
        p.ttl as u16 * 256 + p.protocol as u16,
        swap16_exec(p.checksum),
        (s / 0x1_0000) as u16,
        (s % 0x1_0000) as u16,
        (d / 0x1_0000) as u16,
        (d % 0x1_0000) as u16,
    ];
    proof {
        assert(r@ =~= ipv4_words(*p));
    }
    r
}

impl VirtIONet {
    /// The DHCP discover broadcast from this station: Ethernet to
    /// everyone, IPv4 from 0.0.0.0 to 255.255.255.255 with its header
    /// checksum, UDP from port 68 to 67, and a DHCP request carrying the
    /// station's MAC address.
    pub fn dhcp_discover(&self) -> (r: Ether<IpV4<UDP<DHCP>>>)
        ensures
            forall|i: int| 0 <= i < 6 ==> #[trigger] r.destination.0@[i] == 0xff,
            r.source == self.mac,
            r.kind == swap16(0x0800),
            r.payload.version_ihl == 0x45,
            r.payload.dscp_ecn == 0,
            r.payload.length == swap16((IPV4_UDP_DHCP_BYTES - 32 + 7) as u16),
            r.payload.ident == swap16(1),
            r.payload.flags_fragment == 0x0040,
            r.payload.ttl == 0x40,
            r.payload.protocol == 17,
            r.payload.source == 0,
            r.payload.destination == 0xffff_ffff,
            r.payload.checksum == header_checksum(ipv4_words((IpV4 { checksum: 0, ..r.payload }))),
            r.payload.payload.source_port == swap16(0x44),
            r.payload.payload.destination_port == swap16(0x43),
            r.payload.payload.length == swap16((UDP_DHCP_BYTES - 32 + 7) as u16),
            r.payload.payload.checksum == 0,
            r.payload.payload.payload.op == 1,
            r.payload.payload.payload.htype == 1,
            r.payload.payload.payload.hlen == 6,
            r.payload.payload.payload.hops == 0,
            r.payload.payload.payload.xid == 0x1337,
            r.payload.payload.payload.secs == 0,
            r.payload.payload.payload.flags == 0,
            r.payload.payload.payload.ciaddr == 0,
            r.payload.payload.payload.yiaddr == 0,
            r.payload.payload.payload.siaddr == 0,
            r.payload.payload.payload.giaddr == 0,
            forall|i: int| 0 <= i < 64 ==> #[trigger] r.payload.payload.payload.sname@[i] == 0,
            forall|i: int| 0 <= i < 128 ==> #[trigger] r.payload.payload.payload.file@[i] == 0,
            r.payload.payload.payload.magic == swap32(0x6382_5363),
            forall|i: int| 0 <= i < 6 ==> #[trigger] r.payload.payload.payload.chaddr@[i] == self.mac.0@[i],
            forall|i: int| 6 <= i < 16 ==> #[trigger] r.payload.payload.payload.chaddr@[i] == 0,
            forall|i: int| 0 <= i < 7 ==> #[trigger] r.payload.payload.payload.options@[i] == discover_options()[i],
            forall|i: int| 7 <= i < 32 ==> #[trigger] r.payload.payload.payload.options@[i] == 0,
    {
        let mut chaddr = [0u8; 16];
        let mut i: usize = 0;
        while i < 6
            invariant
                i <= 6,
                chaddr@.len() == 16,
                forall|k: int| 0 <= k < i ==> #[trigger] chaddr@[k] == self.mac.0@[k],
                forall|k: int| i <= k < 16 ==> #[trigger] chaddr@[k] == 0,
            decreases 6 - i,
        {
            chaddr[i] = self.mac.index(i);
            i = i + 1;
        }
        let mut options = [0u8; 32];
        options[0] = 99;
        options[1] = 130;
        options[2] = 83;
        options[3] = 88;
        options[4] = 53;
        options[5] = 1;
        options[6] = 3;
        let dhcp = DHCP {
            op: 1,
            htype: 1,
            hlen: 6,
            hops: 0,
            xid: 0x1337,
            secs: 0,
            flags: 0,
            ciaddr: 0,
            yiaddr: 0,
            siaddr: 0,
            giaddr: 0,
            chaddr,
            sname: [0u8; 64],
            file: [0u8; 128],
            magic: swap32_exec(0x6382_5363),
            options,
        };
        let udp = UDP {
            source_port: swap16_exec(0x44),
            destination_port: swap16_exec(0x43),
            length: swap16_exec(UDP_DHCP_BYTES - 32 + 7),
            checksum: 0,
            payload: dhcp,
        };
        let mut ipv4 = IpV4 {
            version_ihl: 0x45,
            dscp_ecn: 0,
            length: swap16_exec(IPV4_UDP_DHCP_BYTES - 32 + 7),
            ident: swap16_exec(1),
            flags_fragment: 0x0040,
            ttl: 0x40,
            protocol: 17,
            checksum: swap16_exec(0),
            source: swap32_exec(0),
            destination: swap32_exec(0xffff_ffff),
            payload: udp,
        };
        let words = ipv4_words_exec(&ipv4);
        ipv4.checksum = ipv4_checksum(words.as_slice());
        Ether { destination: MacAddress::broadcast(), source: self.mac, kind: swap16_exec(0x0800), payload: ipv4 }
    }

    /// The ARP request asking which station has the address `ip`.
    pub fn arp_ask(&self, ip: IpAddress) -> (r: Ether<Arp>)
        ensures
            forall|i: int| 0 <= i < 6 ==> #[trigger] r.destination.0@[i] == 0xff,
            r.source == self.mac,
            r.kind == 0x0608,
            r.payload.hw == 0x0100,
            r.payload.proto == 0x0008,
            r.payload.hwsize == 6,
            r.payload.protosize == 4,
            r.payload.op == 0x0100,
            r.payload.sender_mac == self.mac,
            r.payload.sender_ip == (IpAddress(0, 0, 0, 0)),
            forall|i: int| 0 <= i < 6 ==> #[trigger] r.payload.target_mac.0@[i] == 0,
            r.payload.target_ip == ip,
    {
        let arp = Arp {
            hw: 0x0100,
            proto: 0x0008,
            hwsize: 0x06,
            protosize: 0x04,
            op: 0x0100,
            sender_mac: self.mac,
            sender_ip: IpAddress(0, 0, 0, 0),
            target_mac: MacAddress([0u8; 6]),
            target_ip: ip,
        };
        Ether { destination: MacAddress::broadcast(), source: self.mac, kind: 0x0608, payload: arp }
    }
}

} // verus!

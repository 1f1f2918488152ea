//! The memory-mapped register block of a virtio device, and the values
//! exchanged through it.
use vstd::prelude::*;
use crate::volatile::Volatile;
use crate::virtio_queue::{VirtQueue, QUEUE_SIZE};

verus! {

/// The magic value at the start of every virtio register block ("virt").
pub const VIRTIO_MAGIC: u32 = 0x7472_6976;

/// The device status register: which steps of initialisation are done.
#[derive(Clone, Copy, PartialEq, Eq, Structural)]
pub struct DeviceStatus {
    pub bits: u32,
}

/// Status: reset.
pub const STATUS_RESET: u32 = 0;

/// Status: the guest has found the device.
pub const STATUS_ACKNOWLEDGE: u32 = 1;

/// Status: the guest knows how to drive the device.
pub const STATUS_DRIVER: u32 = 2;

/// Status: the driver is set up and ready.
pub const STATUS_DRIVER_OK: u32 = 4;

/// Status: feature negotiation is complete.
pub const STATUS_FEATURES_OK: u32 = 8;

/// Status: the device has met an error it cannot recover from.
pub const STATUS_DEVICE_NEEDS_RESET: u32 = 64;

/// Status: the guest has given up on the device.
pub const STATUS_FAILED: u32 = 128;

impl DeviceStatus {
    pub fn from_bits(bits: u32) -> (r: Self)
        ensures
            r.bits == bits,
    {
        DeviceStatus { bits }
    }

    /// Whether every flag of `other` is set.
    pub fn contains(&self, other: Self) -> (r: bool)
        ensures
            r == (self.bits & other.bits == other.bits),
    {
        self.bits & other.bits == other.bits
    }
}

/// The status register value with the flags `bits`.
pub open spec fn status(bits: u32) -> DeviceStatus {
    DeviceStatus { bits }
}

/// Network feature: the device has a MAC address.
pub const FEATURE_MAC: u64 = 0x20;

/// The feature bits of a network device.
#[derive(Clone, Copy, PartialEq, Eq, Structural)]
pub struct NetworkDeviceFeatures {
    pub bits: u64,
}

impl NetworkDeviceFeatures {
    pub fn from_bits(bits: u64) -> (r: Self)
        ensures
            r.bits == bits,
    {
        NetworkDeviceFeatures { bits }
    }

    /// The features in both sets.
    pub fn intersection(self, other: Self) -> (r: Self)
        ensures
            r.bits == self.bits & other.bits,
    {
        NetworkDeviceFeatures { bits: self.bits & other.bits }
    }
}

/// The kinds of virtio device.
#[derive(Clone, Copy, PartialEq, Eq, Structural, Debug)]
pub enum DeviceType {
    Network,
    Block,
    Console,
    EntropySource,
    MemoryBallooning,
    IoMemory,
    RPMSG,
    SCSIHost,
    NinePTransport,
    Mac80211WLAN,
}

/// The device id of each kind.
pub open spec fn device_id_of(t: DeviceType) -> u32 {
    match t {
        DeviceType::Network => 1,
        DeviceType::Block => 2,
        DeviceType::Console => 3,
        DeviceType::EntropySource => 4,
        DeviceType::MemoryBallooning => 5,
        DeviceType::IoMemory => 6,
        DeviceType::RPMSG => 7,
        DeviceType::SCSIHost => 8,
        DeviceType::NinePTransport => 9,
        DeviceType::Mac80211WLAN => 10,
    }
}

/// The 64-bit feature word made of a low and a high half.
pub open spec fn features_word(low: u32, high: u32) -> u64 {
    (low as u64 + (high as u64) * 0x1_0000_0000) as u64
}

/// The low half of a 64-bit value.
pub open spec fn low_half(v: u64) -> u32 {
    (v % 0x1_0000_0000) as u32
}

/// The high half of a 64-bit value.
pub open spec fn high_half(v: u64) -> u32 {
    (v / 0x1_0000_0000) as u32
}

/// Splitting a value into halves and joining them gives it back.
pub proof fn lemma_halves(v: u64)
    ensures
        features_word(low_half(v), high_half(v)) == v,
        low_half(features_word(low_half(v), high_half(v))) == low_half(v),
{
}

/// A register of the block that the driver reads or writes.
#[derive(Clone, Copy, PartialEq, Eq, Structural, Debug)]
pub enum Reg {
    DeviceFeatures,
    DeviceFeaturesSel,
    DriverFeatures,
    DriverFeaturesSel,
    QueueSel,
    QueueNum,
    QueueDescLow,
    QueueDescHigh,
    QueueAvailLow,
    QueueAvailHigh,
    QueueUsedLow,
    QueueUsedHigh,
    QueueReady,
    QueueNotify,
    Status,
}

/// One access of the driver to the register block: a read and the value
/// seen, or a write and the value written.
#[derive(Clone, Copy, PartialEq, Eq, Structural, Debug)]
pub enum Access {
    Read(Reg, u32),
    Write(Reg, u32),
}

/// Every access to a register block, oldest first (ghost state).
pub struct AccessLog {
    pub accesses: Ghost<Seq<Access>>,
}

impl View for AccessLog {
    type V = Seq<Access>;

    open spec fn view(&self) -> Seq<Access> {
        self.accesses@
    }
}

impl AccessLog {
    /// A log with no access yet.
    pub fn new() -> (r: Self)
        ensures
            r@ == Seq::<Access>::empty(),
    {
        AccessLog { accesses: Ghost(Seq::empty()) }
    }
}

/// The register block of a virtio device over MMIO. Registers that the
/// device banks by a selector hold one cell per selector value: the
/// device features by `device_features_sel`, and the queue size limit and
/// readiness by `queue_sel`; an access reaches the cell of the selector in
/// force. `log` records every access the driver makes, in order.
pub struct VirtIOHeader {
    pub magic: Volatile<u32>,
    pub version: Volatile<u32>,
    pub device_id: Volatile<u32>,
    pub vendor_id: Volatile<u32>,
    pub device_features: Vec<Volatile<u32>>,
    pub device_features_sel: Volatile<u32>,
    pub driver_features: Volatile<u32>,
    pub driver_features_sel: Volatile<u32>,
    pub guest_page_size: Volatile<u32>,
    pub queue_sel: Volatile<u32>,
    pub queue_num_max: Vec<Volatile<u32>>,
    pub queue_num: Volatile<u32>,
    pub queue_align: Volatile<u32>,
    pub queue_pfn: Volatile<u32>,
    pub queue_ready: Vec<Volatile<u32>>,
    pub queue_notify: Volatile<u32>,
    pub interrupt_status: Volatile<u32>,
    pub interrupt_ack: Volatile<u32>,
    pub status: Volatile<DeviceStatus>,
    pub queue_desc_low: Volatile<u32>,
    pub queue_desc_high: Volatile<u32>,
    pub queue_avail_low: Volatile<u32>,
    pub queue_avail_high: Volatile<u32>,
    pub queue_used_low: Volatile<u32>,
    pub queue_used_high: Volatile<u32>,
    pub shm_sel: Volatile<u32>,
    pub shm_sel_len_low: Volatile<u32>,
    pub shm_sel_len_high: Volatile<u32>,
    pub shm_sel_base_low: Volatile<u32>,
    pub shm_sel_base_high: Volatile<u32>,
    pub config_generation: Volatile<u32>,
    pub log: AccessLog,
    /// Whether the device accepts the features the driver chose. A device
    /// that does not reports its status without the features-ok bit.
    pub features_accepted: bool,
}

/// The status the device reports: the last one written, without the
/// features-ok bit when the device does not accept the features.
pub open spec fn reported_status(h: VirtIOHeader) -> u32 {
    if h.features_accepted {
        h.status@.bits
    } else {
        h.status@.bits & !STATUS_FEATURES_OK
    }
}

/// The accesses that read the offered features `low` and `high`.
pub open spec fn read_features_accesses(low: u32, high: u32) -> Seq<Access> {
    seq![
        Access::Write(Reg::DeviceFeaturesSel, 0),
        Access::Read(Reg::DeviceFeatures, low),
        Access::Write(Reg::DeviceFeaturesSel, 1),
        Access::Read(Reg::DeviceFeatures, high),
    ]
}

/// The accesses that accept the features `f`.
pub open spec fn write_features_accesses(f: u64) -> Seq<Access> {
    seq![
        Access::Write(Reg::DriverFeaturesSel, 0),
        Access::Write(Reg::DriverFeatures, low_half(f)),
        Access::Write(Reg::DriverFeaturesSel, 1),
        Access::Write(Reg::DriverFeatures, high_half(f)),
    ]
}

/// The accesses that give queue `index`, the queue `q`, to the device.
pub open spec fn queue_accesses(index: u32, q: VirtQueue) -> Seq<Access> {
    seq![
        Access::Write(Reg::QueueSel, index),
        Access::Write(Reg::QueueNum, QUEUE_SIZE as u32),
        Access::Write(Reg::QueueDescLow, low_half(q.desc_base.value() as u64)),
        Access::Write(Reg::QueueDescHigh, high_half(q.desc_base.value() as u64)),
        Access::Write(Reg::QueueAvailLow, low_half(q.avail_base.value() as u64)),
        Access::Write(Reg::QueueAvailHigh, high_half(q.avail_base.value() as u64)),
        Access::Write(Reg::QueueUsedLow, low_half(q.used_base.value() as u64)),
        Access::Write(Reg::QueueUsedHigh, high_half(q.used_base.value() as u64)),
        Access::Write(Reg::QueueReady, 1),
    ]
}

/// `b` is `a` with `v` written, when `hit`, and unchanged otherwise.
pub open spec fn upd(b: Volatile<u32>, a: Volatile<u32>, hit: bool, v: u32) -> bool {
    if hit {
        b.writes() == a.writes().push(v) && b@ == v
    } else {
        b == a
    }
}

/// The registers the driver never writes are the same in `a` and `b`.
pub open spec fn fixed(a: VirtIOHeader, b: VirtIOHeader) -> bool {
    &&& b.magic == a.magic
    &&& b.version == a.version
    &&& b.device_id == a.device_id
    &&& b.vendor_id == a.vendor_id
    &&& b.device_features == a.device_features
    &&& b.guest_page_size == a.guest_page_size
    &&& b.queue_num_max == a.queue_num_max
    &&& b.queue_align == a.queue_align
    &&& b.queue_pfn == a.queue_pfn
    &&& b.interrupt_status == a.interrupt_status
    &&& b.interrupt_ack == a.interrupt_ack
    &&& b.shm_sel == a.shm_sel
    &&& b.shm_sel_len_low == a.shm_sel_len_low
    &&& b.shm_sel_len_high == a.shm_sel_len_high
    &&& b.shm_sel_base_low == a.shm_sel_base_low
    &&& b.shm_sel_base_high == a.shm_sel_base_high
    &&& b.config_generation == a.config_generation
    &&& b.features_accepted == a.features_accepted
}

/// `b` is `a` after writing `v` to register `reg`, with the write logged;
/// a queue's readiness is written in the cell of the queue selected, and
/// the status takes `v` as its flags.
pub open spec fn written(a: VirtIOHeader, b: VirtIOHeader, reg: Reg, v: u32) -> bool {
    &&& b.log@ == a.log@.push(Access::Write(reg, v))
    &&& fixed(a, b)
    &&& upd(b.device_features_sel, a.device_features_sel, reg == Reg::DeviceFeaturesSel, v)
    &&& upd(b.driver_features, a.driver_features, reg == Reg::DriverFeatures, v)
    &&& upd(b.driver_features_sel, a.driver_features_sel, reg == Reg::DriverFeaturesSel, v)
    &&& upd(b.queue_sel, a.queue_sel, reg == Reg::QueueSel, v)
    &&& upd(b.queue_num, a.queue_num, reg == Reg::QueueNum, v)
    &&& upd(b.queue_desc_low, a.queue_desc_low, reg == Reg::QueueDescLow, v)
    &&& upd(b.queue_desc_high, a.queue_desc_high, reg == Reg::QueueDescHigh, v)
    &&& upd(b.queue_avail_low, a.queue_avail_low, reg == Reg::QueueAvailLow, v)
    &&& upd(b.queue_avail_high, a.queue_avail_high, reg == Reg::QueueAvailHigh, v)
    &&& upd(b.queue_used_low, a.queue_used_low, reg == Reg::QueueUsedLow, v)
    &&& upd(b.queue_used_high, a.queue_used_high, reg == Reg::QueueUsedHigh, v)
    &&& upd(b.queue_notify, a.queue_notify, reg == Reg::QueueNotify, v)
    &&& if reg == Reg::Status {
        b.status.writes() == a.status.writes().push(status(v)) && b.status@ == status(v)
    } else {
        b.status == a.status
    }
    &&& if reg == Reg::QueueReady {
        let q = a.queue_sel@ as int;
        &&& b.queue_ready@.len() == a.queue_ready@.len()
        &&& b.queue_ready@[q].writes() == a.queue_ready@[q].writes().push(v)
        &&& b.queue_ready@[q]@ == v
        &&& forall|k: int| 0 <= k < a.queue_ready@.len() && k != q ==> #[trigger] b.queue_ready@[k] == a.queue_ready@[k]
    } else {
        b.queue_ready == a.queue_ready
    }
}

/// `b` is `a` after reading `v` from register `reg`: only the log changed.
pub open spec fn read_logged(a: VirtIOHeader, b: VirtIOHeader, reg: Reg, v: u32) -> bool {
    &&& b.log@ == a.log@.push(Access::Read(reg, v))
    &&& fixed(a, b)
    &&& b.device_features_sel == a.device_features_sel
    &&& b.driver_features == a.driver_features
    &&& b.driver_features_sel == a.driver_features_sel
    &&& b.queue_sel == a.queue_sel
    &&& b.queue_num == a.queue_num
    &&& b.queue_desc_low == a.queue_desc_low
    &&& b.queue_desc_high == a.queue_desc_high
    &&& b.queue_avail_low == a.queue_avail_low
    &&& b.queue_avail_high == a.queue_avail_high
    &&& b.queue_used_low == a.queue_used_low
    &&& b.queue_used_high == a.queue_used_high
    &&& b.queue_notify == a.queue_notify
    &&& b.status == a.status
    &&& b.queue_ready == a.queue_ready
}

impl VirtIOHeader {
    /// Writes `v` to register `reg` and logs the write; the readiness
    /// register is written in the cell of the queue selected.
    pub fn write_reg(&mut self, reg: Reg, v: u32)
        requires
            reg != Reg::DeviceFeatures,
            reg == Reg::QueueReady ==> old(self).queue_sel@ < old(self).queue_ready@.len(),
        ensures
            written(*old(self), *final(self), reg, v),
    {
        match reg {
            Reg::DeviceFeaturesSel => self.device_features_sel.set(v),
            Reg::DriverFeatures => self.driver_features.set(v),
            Reg::DriverFeaturesSel => self.driver_features_sel.set(v),
            Reg::QueueSel => self.queue_sel.set(v),
            Reg::QueueNum => self.queue_num.set(v),
            Reg::QueueDescLow => self.queue_desc_low.set(v),
            Reg::QueueDescHigh => self.queue_desc_high.set(v),
            Reg::QueueAvailLow => self.queue_avail_low.set(v),
            Reg::QueueAvailHigh => self.queue_avail_high.set(v),
            Reg::QueueUsedLow => self.queue_used_low.set(v),
            Reg::QueueUsedHigh => self.queue_used_high.set(v),
            Reg::QueueNotify => self.queue_notify.set(v),
            Reg::Status => self.status.set(DeviceStatus::from_bits(v)),
            Reg::QueueReady => {
                let q = self.queue_sel.get() as usize;
                let mut cell = Volatile::new(0);
                self.queue_ready.set_and_swap(q, &mut cell);
                cell.set(v);
                self.queue_ready.set_and_swap(q, &mut cell);
            },
            Reg::DeviceFeatures => {},
        }
        self.log.accesses = Ghost(self.log.accesses@.push(Access::Write(reg, v)));
    }

    /// Reads the device feature word of the selector in force, and logs
    /// the read.
    pub fn read_device_features(&mut self) -> (r: u32)
        requires
            old(self).device_features_sel@ < old(self).device_features@.len(),
        ensures
            r == old(self).device_features@[old(self).device_features_sel@ as int]@,
            read_logged(*old(self), *final(self), Reg::DeviceFeatures, r),
    {
        let r = self.device_features[self.device_features_sel.get() as usize].get();
        self.log.accesses = Ghost(self.log.accesses@.push(Access::Read(Reg::DeviceFeatures, r)));
        r
    }

    /// Reads the status register, and logs the read.
    pub fn read_status(&mut self) -> (r: DeviceStatus)
        ensures
            r.bits == reported_status(*old(self)),
            read_logged(*old(self), *final(self), Reg::Status, r.bits),
    {
        let r = if self.features_accepted {
            self.status.get()
        } else {
            DeviceStatus { bits: self.status.get().bits & !STATUS_FEATURES_OK }
        };
        self.log.accesses = Ghost(self.log.accesses@.push(Access::Read(Reg::Status, r.bits)));
        r
    }

    /// There are two feature words, and as many readiness cells as size
    /// limits.
    pub open spec fn wf(&self) -> bool {
        &&& self.device_features@.len() == 2
        &&& self.queue_num_max@.len() == self.queue_ready@.len()
    }

    /// Whether the block is a virtio device that is present: the magic value
    /// is there and the device id is not zero.
    pub fn is_present(&self) -> (r: bool)
        ensures
            r == (self.magic@ == VIRTIO_MAGIC && self.device_id@ != 0),
    {
        self.magic.get() == VIRTIO_MAGIC && self.device_id.get() != 0
    }

    /// Resets the device, then tells it that it was found, then that a
    /// driver knows it; the status keeps each step done.
    pub fn start_initialization(&mut self)
        ensures
            final(self).log@ == old(self).log@ + seq![
                Access::Write(Reg::Status, STATUS_RESET),
                Access::Write(Reg::Status, STATUS_ACKNOWLEDGE),
                Access::Write(Reg::Status, STATUS_ACKNOWLEDGE | STATUS_DRIVER),
            ],
            final(self).status.writes() == old(self).status.writes() + seq![
                status(STATUS_RESET),
                status(STATUS_ACKNOWLEDGE),
                status(STATUS_ACKNOWLEDGE | STATUS_DRIVER),
            ],
            final(self).status@ == status(STATUS_ACKNOWLEDGE | STATUS_DRIVER),
            fixed(*old(self), *final(self)),
            final(self).queue_sel == old(self).queue_sel,
            final(self).queue_num == old(self).queue_num,
            final(self).driver_features == old(self).driver_features,
            final(self).driver_features_sel == old(self).driver_features_sel,
            final(self).device_features_sel == old(self).device_features_sel,
            final(self).queue_ready == old(self).queue_ready,
            final(self).queue_notify == old(self).queue_notify,
    {
        self.write_reg(Reg::Status, STATUS_RESET);
        self.write_reg(Reg::Status, STATUS_ACKNOWLEDGE);
        self.write_reg(Reg::Status, STATUS_ACKNOWLEDGE | STATUS_DRIVER);
        proof {
            assert(self.log@ =~= old(self).log@ + seq![
                Access::Write(Reg::Status, STATUS_RESET),
                Access::Write(Reg::Status, STATUS_ACKNOWLEDGE),
                Access::Write(Reg::Status, STATUS_ACKNOWLEDGE | STATUS_DRIVER),
            ]);
            assert(self.status.writes() =~= old(self).status.writes() + seq![
                status(STATUS_RESET),
                status(STATUS_ACKNOWLEDGE),
                status(STATUS_ACKNOWLEDGE | STATUS_DRIVER),
            ]);
        }
    }

    /// Adds the flags `bits` to the steps the status records: reads the
    /// status, and writes it back with `bits` set.
    pub fn add_status(&mut self, bits: u32)
        ensures
            final(self).log@ == old(self).log@ + seq![
                Access::Read(Reg::Status, reported_status(*old(self))),
                Access::Write(Reg::Status, reported_status(*old(self)) | bits),
            ],
            final(self).status.writes() == old(self).status.writes().push(status(reported_status(*old(self)) | bits)),
            final(self).status@ == status(reported_status(*old(self)) | bits),
            fixed(*old(self), *final(self)),
            final(self).queue_sel == old(self).queue_sel,
            final(self).queue_num == old(self).queue_num,
            final(self).driver_features == old(self).driver_features,
            final(self).driver_features_sel == old(self).driver_features_sel,
            final(self).device_features_sel == old(self).device_features_sel,
            final(self).queue_ready == old(self).queue_ready,
            final(self).queue_notify == old(self).queue_notify,
    {
        let s = self.read_status();
        self.write_reg(Reg::Status, s.bits | bits);
        proof {
            assert(self.log@ =~= old(self).log@ + seq![
                Access::Read(Reg::Status, reported_status(*old(self))),
                Access::Write(Reg::Status, reported_status(*old(self)) | bits),
            ]);
        }
    }

    /// Tells the device that the driver is ready, keeping the steps the
    /// status already records.
    pub fn finish_initialization(&mut self)
        ensures
            final(self).log@ == old(self).log@ + seq![
                Access::Read(Reg::Status, reported_status(*old(self))),
                Access::Write(Reg::Status, reported_status(*old(self)) | STATUS_DRIVER_OK),
            ],
            final(self).status.writes() == old(self).status.writes().push(status(reported_status(*old(self)) | STATUS_DRIVER_OK)),
            final(self).status@ == status(reported_status(*old(self)) | STATUS_DRIVER_OK),
            fixed(*old(self), *final(self)),
            final(self).queue_notify == old(self).queue_notify,
            final(self).queue_ready == old(self).queue_ready,
            final(self).queue_num == old(self).queue_num,
            final(self).queue_sel == old(self).queue_sel,
            final(self).driver_features == old(self).driver_features,
            final(self).driver_features_sel == old(self).driver_features_sel,
            final(self).device_features_sel == old(self).device_features_sel,
    {
        self.add_status(STATUS_DRIVER_OK);
    }

    /// Reads the 64 feature bits the device offers: the low word with
    /// selector 0, then the high word with selector 1.
    pub fn get_device_features(&mut self) -> (r: u64)
        requires
            old(self).wf(),
        ensures
            final(self).wf(),
            r == features_word(old(self).device_features@[0]@, old(self).device_features@[1]@),
            final(self).log@ == old(self).log@ + read_features_accesses(
                old(self).device_features@[0]@,
                old(self).device_features@[1]@,
            ),
            final(self).device_features_sel.writes() == old(self).device_features_sel.writes()
                + seq![0u32, 1u32],
            fixed(*old(self), *final(self)),
            final(self).driver_features == old(self).driver_features,
            final(self).driver_features_sel == old(self).driver_features_sel,
            final(self).status == old(self).status,
            final(self).queue_ready == old(self).queue_ready,
            final(self).queue_notify == old(self).queue_notify,
            final(self).queue_sel == old(self).queue_sel,
            final(self).queue_num == old(self).queue_num,
    {
        self.write_reg(Reg::DeviceFeaturesSel, 0);
        let low = self.read_device_features();
        self.write_reg(Reg::DeviceFeaturesSel, 1);
        let high = self.read_device_features();
        let mut features: u64 = low as u64;
        let shifted: u64 = (high as u64) << 32u64;
        proof {
            assert(((high as u64) << 32u64) == (high as u64) * 0x1_0000_0000) by (bit_vector);
            assert(self.device_features_sel.writes() =~= old(self).device_features_sel.writes()
                + seq![0u32, 1u32]);
            assert(self.log@ =~= old(self).log@ + read_features_accesses(low, high));
        }
        features = features + shifted;
        features
    }

    /// Writes the 64 feature bits the driver accepts: the low word with
    /// selector 0, then the high word with selector 1.
    pub fn set_device_features(&mut self, features: u64)
        ensures
            old(self).wf() ==> final(self).wf(),
            final(self).log@ == old(self).log@ + write_features_accesses(features),
            final(self).driver_features_sel.writes() == old(self).driver_features_sel.writes()
                + seq![0u32, 1u32],
            final(self).driver_features.writes() == old(self).driver_features.writes() + seq![
                low_half(features),
                high_half(features),
            ],
            fixed(*old(self), *final(self)),
            final(self).device_features_sel == old(self).device_features_sel,
            final(self).status == old(self).status,
            final(self).queue_ready == old(self).queue_ready,
            final(self).queue_notify == old(self).queue_notify,
            final(self).queue_sel == old(self).queue_sel,
            final(self).queue_num == old(self).queue_num,
    {
        self.write_reg(Reg::DriverFeaturesSel, 0);
        let low = features as u32;
        proof {
            assert(features as u32 == features % 0x1_0000_0000) by (bit_vector);
        }
        self.write_reg(Reg::DriverFeatures, low);
        self.write_reg(Reg::DriverFeaturesSel, 1);
        let high = (features >> 32u64) as u32;
        proof {
            assert((features >> 32u64) as u32 == features / 0x1_0000_0000) by (bit_vector);
        }
        self.write_reg(Reg::DriverFeatures, high);
        proof {
            assert(self.driver_features_sel.writes() =~= old(self).driver_features_sel.writes()
                + seq![0u32, 1u32]);
            assert(self.driver_features.writes() =~= old(self).driver_features.writes() + seq![
                low_half(features),
                high_half(features),
            ]);
            assert(self.log@ =~= old(self).log@ + write_features_accesses(features));
        }
    }

    /// Reads the offered features, and accepts `f` of them.
    pub fn update_device_features(&mut self, f: impl Fn(u64) -> u64)
        requires
            old(self).wf(),
            call_requires(f, (features_word(old(self).device_features@[0]@, old(self).device_features@[1]@),)),
        ensures
            final(self).wf(),
            exists|v: u64|
                call_ensures(f, (features_word(old(self).device_features@[0]@, old(self).device_features@[1]@),), v)
                && #[trigger] final(self).driver_features.writes() == old(self).driver_features.writes() + seq![
                    low_half(v),
                    high_half(v),
                ] && final(self).log@ == old(self).log@ + read_features_accesses(
                    old(self).device_features@[0]@,
                    old(self).device_features@[1]@,
                ) + write_features_accesses(v),
            final(self).device_features_sel.writes() == old(self).device_features_sel.writes()
                + seq![0u32, 1u32],
            final(self).driver_features_sel.writes() == old(self).driver_features_sel.writes()
                + seq![0u32, 1u32],
            fixed(*old(self), *final(self)),
            final(self).status == old(self).status,
            final(self).queue_ready == old(self).queue_ready,
            final(self).queue_notify == old(self).queue_notify,
            final(self).queue_sel == old(self).queue_sel,
            final(self).queue_num == old(self).queue_num,
    {
        let features = self.get_device_features();
        let v = f(features);
        self.set_device_features(v);
        proof {
            assert(self.log@ =~= old(self).log@ + read_features_accesses(
                old(self).device_features@[0]@,
                old(self).device_features@[1]@,
            ) + write_features_accesses(v));
        }
    }

    /// The kind of the device, if its id names one.
    pub fn device_type(&self) -> (r: Option<DeviceType>)
        ensures
            match r {
                Some(t) => device_id_of(t) == self.device_id@,
                None => !(1 <= self.device_id@ <= 10),
            },
    {
        let id = self.device_id.get();
        if id == 1 {
            Some(DeviceType::Network)
        } else if id == 2 {
            Some(DeviceType::Block)
        } else if id == 3 {
            Some(DeviceType::Console)
        } else if id == 4 {
            Some(DeviceType::EntropySource)
        } else if id == 5 {
            Some(DeviceType::MemoryBallooning)
        } else if id == 6 {
            Some(DeviceType::IoMemory)
        } else if id == 7 {
            Some(DeviceType::RPMSG)
        } else if id == 8 {
            Some(DeviceType::SCSIHost)
        } else if id == 9 {
            Some(DeviceType::NinePTransport)
        } else if id == 10 {
            Some(DeviceType::Mac80211WLAN)
        } else {
            None
        }
    }

    /// Gives queue number `index` to the device: selects it, then writes
    /// its size, the physical addresses of its three parts as low and high
    /// words, and last marks it ready. The queue must not be in use yet and
    /// must exist on the device.
    pub fn set_queue(&mut self, index: u32, queue: &VirtQueue)
        requires
            old(self).wf(),
            index < old(self).queue_ready@.len(),
            old(self).queue_ready@[index as int]@ == 0,
            old(self).queue_num_max@[index as int]@ != 0,
        ensures
            final(self).wf(),
            final(self).log@ == old(self).log@ + queue_accesses(index, *queue),
            final(self).queue_sel.writes() == old(self).queue_sel.writes().push(index),
            final(self).queue_sel@ == index,
            final(self).queue_num.writes() == old(self).queue_num.writes().push(QUEUE_SIZE as u32),
            final(self).queue_desc_low.writes() == old(self).queue_desc_low.writes().push(
                low_half(queue.desc_base.value() as u64),
            ),
            final(self).queue_desc_high.writes() == old(self).queue_desc_high.writes().push(
                high_half(queue.desc_base.value() as u64),
            ),
            final(self).queue_avail_low.writes() == old(self).queue_avail_low.writes().push(
                low_half(queue.avail_base.value() as u64),
            ),
            final(self).queue_avail_high.writes() == old(self).queue_avail_high.writes().push(
                high_half(queue.avail_base.value() as u64),
            ),
            final(self).queue_used_low.writes() == old(self).queue_used_low.writes().push(
                low_half(queue.used_base.value() as u64),
            ),
            final(self).queue_used_high.writes() == old(self).queue_used_high.writes().push(
                high_half(queue.used_base.value() as u64),
            ),
            final(self).queue_ready@.len() == old(self).queue_ready@.len(),
            forall|q: int|
                0 <= q < old(self).queue_ready@.len() && q != index
                    ==> #[trigger] final(self).queue_ready@[q] == old(self).queue_ready@[q],
            final(self).queue_ready@[index as int].writes() == old(self).queue_ready@[index as int].writes().push(1),
            final(self).queue_ready@[index as int]@ == 1,
            fixed(*old(self), *final(self)),
            final(self).status == old(self).status,
            final(self).queue_notify == old(self).queue_notify,
            final(self).driver_features == old(self).driver_features,
            final(self).driver_features_sel == old(self).driver_features_sel,
            final(self).device_features_sel == old(self).device_features_sel,
    {
        self.write_reg(Reg::QueueSel, index);
        self.write_reg(Reg::QueueNum, queue.size() as u32);
        let (lo, hi) = split_address(queue.desc_start().as_usize() as u64);
        self.write_reg(Reg::QueueDescLow, lo);
        self.write_reg(Reg::QueueDescHigh, hi);
        let (lo, hi) = split_address(queue.avail_start().as_usize() as u64);
        self.write_reg(Reg::QueueAvailLow, lo);
        self.write_reg(Reg::QueueAvailHigh, hi);
        let (lo, hi) = split_address(queue.used_start().as_usize() as u64);
        self.write_reg(Reg::QueueUsedLow, lo);
        self.write_reg(Reg::QueueUsedHigh, hi);
        self.write_reg(Reg::QueueReady, 1);
        proof {
            assert(self.log@ =~= old(self).log@ + queue_accesses(index, *queue));
        }
    }

    /// Tells the device that queue `queue_index` has new buffers.
    pub fn notify(&mut self, queue_index: u32)
        ensures
            final(self).log@ == old(self).log@.push(Access::Write(Reg::QueueNotify, queue_index)),
            final(self).queue_notify.writes() == old(self).queue_notify.writes().push(queue_index),
            fixed(*old(self), *final(self)),
            final(self).status == old(self).status,
            final(self).queue_ready == old(self).queue_ready,
            final(self).queue_sel == old(self).queue_sel,
            final(self).queue_num == old(self).queue_num,
            final(self).driver_features == old(self).driver_features,
            final(self).driver_features_sel == old(self).driver_features_sel,
            final(self).device_features_sel == old(self).device_features_sel,
    {
        self.write_reg(Reg::QueueNotify, queue_index);
    }
}

/// The low and high words of a 64-bit value.
fn split_address(v: u64) -> (r: (u32, u32))
    ensures
        r.0 == low_half(v),
        r.1 == high_half(v),
{
    proof {
        assert(v as u32 == v % 0x1_0000_0000) by (bit_vector);
        assert((v >> 32u64) as u32 == v / 0x1_0000_0000) by (bit_vector);
    }
    (v as u32, (v >> 32u64) as u32)
}

/// An IPv4 address.
#[derive(Clone, Copy, PartialEq, Eq, Structural)]
pub struct IpAddress(pub u8, pub u8, pub u8, pub u8);

/// An Ethernet MAC address.
#[derive(Clone, Copy)]
pub struct MacAddress(pub [u8; 6]);

impl MacAddress {
    /// The address every station receives.
    pub fn broadcast() -> (r: Self)
        ensures
            forall|i: int| 0 <= i < 6 ==> #[trigger] r.0@[i] == 0xff,
    {
        MacAddress([0xffu8; 6])
    }

    /// Byte `i` of the address.
    pub fn index(&self, i: usize) -> (r: u8)
        requires
            i < 6,
        ensures
            r == self.0@[i as int],
    {
        self.0[i]
    }
}

/// The configuration space of a network device.
pub struct VirtIONetConfig {
    pub mac: Volatile<[u8; 6]>,
    pub status: Volatile<u16>,
    pub max_virtqueue_pairs: Volatile<u16>,
    pub mtu: Volatile<u16>,
}

impl VirtIONetConfig {
    /// The device's MAC address.
    pub fn mac(&self) -> (r: MacAddress)
        ensures
            r.0 == self.mac@,
    {
        MacAddress(self.mac.get())
    }

    /// The link status.
    pub fn status(&self) -> (r: u16)
        ensures
            r == self.status@,
    {
        self.status.get()
    }
}

/// Header flag: the device is to compute the checksum.
pub const NET_HEADER_NEED_CSUM: u8 = 1;

/// Header flag: the checksum of the packet is known to be valid.
pub const NET_HEADER_DATA_VALID: u8 = 2;

/// Header flag: the header carries coalescing information.
pub const NET_HEADER_RSC_INFO: u8 = 4;

/// Segmentation offload: none.
pub const NET_GSO_NONE: u8 = 0;

/// Segmentation offload: TCP over IPv4.
pub const NET_GSO_TCPV4: u8 = 1;

/// Segmentation offload: UDP.
pub const NET_GSO_UDP: u8 = 2;

/// Segmentation offload: TCP over IPv6.
pub const NET_GSO_TCPV6: u8 = 4;

/// Segmentation offload flag: explicit congestion notification.
pub const NET_GSO_ECN: u8 = 0x80;

/// The flags of the header sent in front of each packet.
#[derive(Clone, Copy, PartialEq, Eq, Structural)]
pub struct NetHeaderFlags {
    pub bits: u8,
}

impl NetHeaderFlags {
    /// No flag.
    pub fn default() -> (r: Self)
        ensures
            r.bits == 0,
    {
        NetHeaderFlags { bits: 0 }
    }
}

/// The segmentation offload kind in the header of each packet.
#[derive(Clone, Copy, PartialEq, Eq, Structural)]
pub struct NetHeaderGsoType {
    pub bits: u8,
}

impl NetHeaderGsoType {
    /// No segmentation offload.
    pub fn default() -> (r: Self)
        ensures
            r.bits == 0,
    {
        NetHeaderGsoType { bits: 0 }
    }
}

/// The header in front of every packet exchanged with the device.
#[derive(Clone, Copy, PartialEq, Eq, Structural)]
pub struct VirtIONetHeader {
    pub flags: NetHeaderFlags,
    pub gso_type: NetHeaderGsoType,
    pub hdr_len: u16,
    pub gso_size: u16,
    pub csum_start: u16,
    pub csum_offset: u16,
    pub num_buffers: u16,
}

impl VirtIONetHeader {
    /// The header with every field zero.
    pub fn default() -> (r: Self)
        ensures
            r.flags.bits == 0,
            r.gso_type.bits == 0,
            r.hdr_len == 0,
            r.gso_size == 0,
            r.csum_start == 0,
            r.csum_offset == 0,
            r.num_buffers == 0,
    {
        VirtIONetHeader {
            flags: NetHeaderFlags::default(),
            gso_type: NetHeaderGsoType::default(),
            hdr_len: 0,
            gso_size: 0,
            csum_start: 0,
            csum_offset: 0,
            num_buffers: 0,
        }
    }
}

} // verus!

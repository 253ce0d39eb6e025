//! The perf-event attribute block used by the fallback CPU sampler: its
//! flag bits, the ring-buffer page header, and the record header, field
//! for field as the kernel interface defines them.

use vstd::prelude::*;

verus! {

/// Software event type.
pub const PERF_TYPE_SOFTWARE: u32 = 1;

/// The CPU-clock software counter.
pub const PERF_COUNT_SW_CPU_CLOCK: u64 = 0;

/// Sample carries the instruction pointer.
pub const PERF_SAMPLE_IP: u64 = 1;

/// Sample carries thread ids.
pub const PERF_SAMPLE_TID: u64 = 2;

/// Sample carries a timestamp.
pub const PERF_SAMPLE_TIME: u64 = 4;

/// A sample record.
pub const PERF_RECORD_SAMPLE: u32 = 9;

/// A lost-records record.
pub const PERF_RECORD_LOST: u32 = 2;

/// The byte size of the attribute block this layout mirrors, as the
/// kernel interface sizes it; the kernel uses the declared size to accept
/// older and newer callers.
pub const PERF_EVENT_ATTR_SIZE: u32 = 120;

/// The `disabled` flag bit.
pub const ATTR_DISABLED_BIT: u64 = 0x1;

/// The `exclude_kernel` flag bit.
pub const ATTR_EXCLUDE_KERNEL_BIT: u64 = 0x20;

/// The `exclude_hv` flag bit.
pub const ATTR_EXCLUDE_HV_BIT: u64 = 0x40;

/// The `freq` flag bit.
pub const ATTR_FREQ_BIT: u64 = 0x400;

/// The `watermark` flag bit.
pub const ATTR_WATERMARK_BIT: u64 = 0x4000;

/// The event attribute block handed to the kernel, with every field of
/// the interface's layout.
pub struct PerfEventAttr {
    /// The event's type class.
    pub type_: u32,
    /// Size of this block.
    pub size: u32,
    /// The event within its class.
    pub config: u64,
    /// Sampling period or frequency, depending on the `freq` bit.
    pub sample_period_or_freq: u64,
    /// What each sample record carries.
    pub sample_type: u64,
    /// What reads of the counter return.
    pub read_format: u64,
    /// The packed flag bits.
    pub flags: u64,
    /// Wakeup threshold, in events or bytes.
    pub wakeup_events_or_watermark: u32,
    /// Breakpoint type, unused here.
    pub bp_type: u32,
    /// Breakpoint address or extension config.
    pub config1: u64,
    /// Breakpoint length or extension config.
    pub config2: u64,
    /// Branch-sampling selector.
    pub branch_sample_type: u64,
    /// User registers to capture.
    pub sample_regs_user: u64,
    /// User stack bytes to capture.
    pub sample_stack_user: u32,
    /// The clock samples are stamped with.
    pub clockid: i32,
    /// Interrupt registers to capture.
    pub sample_regs_intr: u64,
    /// Auxiliary-buffer wakeup threshold.
    pub aux_watermark: u32,
    /// Call-chain depth cap.
    pub sample_max_stack: u16,
    /// Interface padding.
    pub reserved_2: u16,
    /// Auxiliary sample size.
    pub aux_sample_size: u32,
    /// Interface padding.
    pub reserved_3: u32,
}

impl PerfEventAttr {
    /// Every field but the flag word equals the other block's.
    pub open spec fn same_but_flags(self, other: PerfEventAttr) -> bool {
        &&& self.type_ == other.type_
        &&& self.size == other.size
        &&& self.config == other.config
        &&& self.sample_period_or_freq == other.sample_period_or_freq
        &&& self.sample_type == other.sample_type
        &&& self.read_format == other.read_format
        &&& self.wakeup_events_or_watermark == other.wakeup_events_or_watermark
        &&& self.bp_type == other.bp_type
        &&& self.config1 == other.config1
        &&& self.config2 == other.config2
        &&& self.branch_sample_type == other.branch_sample_type
        &&& self.sample_regs_user == other.sample_regs_user
        &&& self.sample_stack_user == other.sample_stack_user
        &&& self.clockid == other.clockid
        &&& self.sample_regs_intr == other.sample_regs_intr
        &&& self.aux_watermark == other.aux_watermark
        &&& self.sample_max_stack == other.sample_max_stack
        &&& self.reserved_2 == other.reserved_2
        &&& self.aux_sample_size == other.aux_sample_size
        &&& self.reserved_3 == other.reserved_3
    }

    /// A zeroed attribute block carrying the layout's size.
    pub fn new() -> (a: PerfEventAttr)
        ensures
            a.size == PERF_EVENT_ATTR_SIZE,
            a.type_ == 0,
            a.config == 0,
            a.sample_period_or_freq == 0,
            a.sample_type == 0,
            a.read_format == 0,
            a.flags == 0,
            a.wakeup_events_or_watermark == 0,
            a.bp_type == 0,
            a.config1 == 0,
            a.config2 == 0,
            a.branch_sample_type == 0,
            a.sample_regs_user == 0,
            a.sample_stack_user == 0,
            a.clockid == 0,
            a.sample_regs_intr == 0,
            a.aux_watermark == 0,
            a.sample_max_stack == 0,
            a.reserved_2 == 0,
            a.aux_sample_size == 0,
            a.reserved_3 == 0,
    {
        PerfEventAttr {
            type_: 0,
            size: PERF_EVENT_ATTR_SIZE,
            config: 0,
            sample_period_or_freq: 0,
            sample_type: 0,
            read_format: 0,
            flags: 0,
            wakeup_events_or_watermark: 0,
            bp_type: 0,
            config1: 0,
            config2: 0,
            branch_sample_type: 0,
            sample_regs_user: 0,
            sample_stack_user: 0,
            clockid: 0,
            sample_regs_intr: 0,
            aux_watermark: 0,
            sample_max_stack: 0,
            reserved_2: 0,
            aux_sample_size: 0,
            reserved_3: 0,
        }
    }

    /// Set or clear the `disabled` flag; no other bit or field moves.
    pub fn set_disabled(&mut self, val: bool)
        ensures
            final(self).flags == if val {
                old(self).flags | ATTR_DISABLED_BIT
            } else {
                old(self).flags & !ATTR_DISABLED_BIT
            },
            final(self).same_but_flags(*old(self)),
    {
        if val {
            self.flags = self.flags | ATTR_DISABLED_BIT;
        } else {
            self.flags = self.flags & !ATTR_DISABLED_BIT;
        }
    }

    /// Set or clear the `exclude_kernel` flag; no other bit or field
    /// moves.
    pub fn set_exclude_kernel(&mut self, val: bool)
        ensures
            final(self).flags == if val {
                old(self).flags | ATTR_EXCLUDE_KERNEL_BIT
            } else {
                old(self).flags & !ATTR_EXCLUDE_KERNEL_BIT
            },
            final(self).same_but_flags(*old(self)),
    {
        if val {
            self.flags = self.flags | ATTR_EXCLUDE_KERNEL_BIT;
        } else {
            self.flags = self.flags & !ATTR_EXCLUDE_KERNEL_BIT;
        }
    }

    /// Set or clear the `exclude_hv` flag; no other bit or field moves.
    pub fn set_exclude_hv(&mut self, val: bool)
        ensures
            final(self).flags == if val {
                old(self).flags | ATTR_EXCLUDE_HV_BIT
            } else {
                old(self).flags & !ATTR_EXCLUDE_HV_BIT
            },
            final(self).same_but_flags(*old(self)),
    {
        if val {
            self.flags = self.flags | ATTR_EXCLUDE_HV_BIT;
        } else {
            self.flags = self.flags & !ATTR_EXCLUDE_HV_BIT;
        }
    }

    /// Set or clear the `freq` flag (period field counts hertz); no other
    /// bit or field moves.
    pub fn set_freq(&mut self, val: bool)
        ensures
            final(self).flags == if val {
                old(self).flags | ATTR_FREQ_BIT
            } else {
                old(self).flags & !ATTR_FREQ_BIT
            },
            final(self).same_but_flags(*old(self)),
    {
        if val {
            self.flags = self.flags | ATTR_FREQ_BIT;
        } else {
            self.flags = self.flags & !ATTR_FREQ_BIT;
        }
    }

    /// Set or clear the `watermark` flag (wakeup field counts bytes); no
    /// other bit or field moves.
    pub fn set_watermark(&mut self, val: bool)
        ensures
            final(self).flags == if val {
                old(self).flags | ATTR_WATERMARK_BIT
            } else {
                old(self).flags & !ATTR_WATERMARK_BIT
            },
            final(self).same_but_flags(*old(self)),
    {
        if val {
            self.flags = self.flags | ATTR_WATERMARK_BIT;
        } else {
            self.flags = self.flags & !ATTR_WATERMARK_BIT;
        }
    }
}

/// The metadata page at the head of a perf ring buffer.
pub struct PerfEventMmapPage {
    /// Version of this structure.
    pub version: u32,
    /// Oldest compatible version.
    pub compat_version: u32,
    /// Seqlock for the time fields.
    pub lock: u32,
    /// Hardware counter index.
    pub index: u32,
    /// Counter offset.
    pub offset: i64,
    /// Time the event was enabled.
    pub time_enabled: u64,
    /// Time the event was running.
    pub time_running: u64,
    /// Where the kernel will write next.
    pub data_head: u64,
    /// Up to where user space has read.
    pub data_tail: u64,
    /// Offset of the data area.
    pub data_offset: u64,
    /// Size of the data area.
    pub data_size: u64,
}

/// The header in front of each ring-buffer record.
pub struct PerfEventHeader {
    /// The record type.
    pub type_: u32,
    /// Flag bits.
    pub misc: u16,
    /// Record size, header included.
    pub size: u16,
}

} // verus!

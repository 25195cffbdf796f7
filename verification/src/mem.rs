//! The memory subsystem, as the kernel's memory report gives it.

use crate::text::{unsigned_from, unsigned_of};
use crate::utils::{key_value, parse_key_from_text};
use vstd::prelude::*;

verus! {

/// The memory figures of the host, in kB.
#[derive(Default)]
pub struct MemInfo {
    pub total: u32,
    pub used: u32,
    pub free: u32,
    pub avail: u32,
    pub buff: u32,
    pub swapt: u32,
    pub swapu: u32,
    pub swapf: u32,
}

/// The characters that stand around a figure of the report.
pub open spec fn figure_trim() -> Seq<char> {
    seq!['\n', ' ', ':', 'k', 'B']
}

/// The figure that the report `content` gives under `key`: the number on
/// the line of the first `key`, or zero where what stands there is no
/// number. `None` where the report has no such line.
pub open spec fn figure_of(content: Seq<char>, key: Seq<char>) -> Option<u32> {
    match key_value(content, key, seq!['\n'], Some(figure_trim())) {
        Some(text) => Some(
            match unsigned_of(text, u32::MAX as nat) {
                Some(n) => n as u32,
                None => 0,
            },
        ),
        None => None,
    }
}

/// The figure read, or the figure held where none was read.
pub open spec fn read_or(read: Option<u32>, held: u32) -> u32 {
    match read {
        Some(figure) => figure,
        None => held,
    }
}

/// `a` less `b`, or zero where `b` is the larger.
pub open spec fn less(a: u32, b: u32) -> u32 {
    if a >= b {
        (a - b) as u32
    } else {
        0
    }
}

/// `a` and `b` together, or the largest figure where that is too small.
pub open spec fn together(a: u32, b: u32) -> u32 {
    if a + b <= u32::MAX {
        (a + b) as u32
    } else {
        u32::MAX
    }
}

/// The figure that the report `content` gives under `key`.
pub fn read_figure(content: &str, key: &str) -> (figure: Option<u32>)
    ensures
        figure == figure_of(content@, key@),
{
    let trim: Vec<char> = vec!['\n', ' ', ':', 'k', 'B'];
    proof {
        reveal_strlit("\n");
        assert("\n"@ =~= seq!['\n']);
        assert(trim@ =~= figure_trim());
    }
    match parse_key_from_text(content, key, "\n", Some(trim.as_slice())) {
        Some(text) => match unsigned_from(text.as_str(), u32::MAX as u64) {
            Some(n) => Some(n as u32),
            None => Some(0),
        },
        None => None,
    }
}

impl MemInfo {
    /// The figures after the report `content` is read. A figure that the
    /// report lacks stays as it is. Buffers count together with what is
    /// cached. The memory in use is the total less what is free and what
    /// buffers hold; the swap in use is the total swap less the free swap.
    pub open spec fn after_reading(self, content: Seq<char>) -> MemInfo {
        let total = read_or(figure_of(content, "MemTotal"@), self.total);
        let free = read_or(figure_of(content, "MemFree"@), self.free);
        let avail = read_or(figure_of(content, "MemAvailable"@), self.avail);
        let cached = read_or(figure_of(content, "Cached"@), 0);
        let buff = match figure_of(content, "Buffers"@) {
            Some(buffers) => together(cached, buffers),
            None => self.buff,
        };
        let swapt = read_or(figure_of(content, "SwapTotal"@), self.swapt);
        let swapf = read_or(figure_of(content, "SwapFree"@), self.swapf);
        MemInfo {
            total,
            used: less(less(total, free), buff),
            free,
            avail,
            buff,
            swapt,
            swapu: less(swapt, swapf),
            swapf,
        }
    }

    /// Figures that are all zero.
    pub fn new() -> (info: Self)
        ensures
            info == (MemInfo {
                total: 0,
                used: 0,
                free: 0,
                avail: 0,
                buff: 0,
                swapt: 0,
                swapu: 0,
                swapf: 0,
            }),
    {
        MemInfo { total: 0, used: 0, free: 0, avail: 0, buff: 0, swapt: 0, swapu: 0, swapf: 0 }
    }

    /// Reads the figures from the kernel's memory report.
    pub fn read_mem_info(&mut self, content: &str)
        ensures
            *final(self) == old(self).after_reading(content@),
    {
        if let Some(total) = read_figure(content, "MemTotal") {
            self.total = total;
        }
        if let Some(free) = read_figure(content, "MemFree") {
            self.free = free;
        }
        if let Some(avail) = read_figure(content, "MemAvailable") {
            self.avail = avail;
        }
        let cached: u32 = match read_figure(content, "Cached") {
            Some(cached) => cached,
            None => 0,
        };
        if let Some(buffers) = read_figure(content, "Buffers") {
            self.buff = if buffers <= u32::MAX - cached {
                cached + buffers
            } else {
                u32::MAX
            };
        }
        if let Some(swapt) = read_figure(content, "SwapTotal") {
            self.swapt = swapt;
        }
        if let Some(swapf) = read_figure(content, "SwapFree") {
            self.swapf = swapf;
        }
        let unfree: u32 = if self.total >= self.free {
            self.total - self.free
        } else {
            0
        };
        self.used = if unfree >= self.buff {
            unfree - self.buff
        } else {
            0
        };
        self.swapu = if self.swapt >= self.swapf {
            self.swapt - self.swapf
        } else {
            0
        };
    }
}

} // verus!

//! The processor subsystem, as the kernel's files on each processor give
//! it.

use crate::text::{trim_by, trimmed, unsigned_from, unsigned_of, whitespace, whitespace_set};
use crate::utils::{key_value, online_cpus, parse_key_from_text, parse_online_cpus};
use vstd::prelude::*;

verus! {

/// One processor that is online.
#[derive(Default)]
pub struct Cpu {
    pub id: u32,
    pub governor: String,
    pub driver: String,
    /// The current frequency in kHz.
    pub freq: u64,
}

/// The processors of the host.
#[derive(Default)]
pub struct CpuInfo {
    pub model: String,
    pub cpus: Vec<Cpu>,
}

/// The characters that stand around the model's name.
pub open spec fn model_trim() -> Seq<char> {
    seq!['\u{9}', '\u{a}', '\u{c}', '\u{d}', '\u{20}', ':']
}

/// The model's name in the kernel's processor report: what stands on the
/// line of the first `model name`, or nothing where there is no such line.
pub open spec fn model_of(content: Seq<char>) -> Seq<char> {
    match key_value(content, "model name"@, seq!['\n'], Some(model_trim())) {
        Some(model) => model,
        None => Seq::empty(),
    }
}

/// The frequency that `text` gives, or zero where `text`, white space
/// around it apart, is no number.
pub open spec fn frequency_of(text: Seq<char>) -> u64 {
    match unsigned_of(trimmed(text, whitespace()), u64::MAX as nat) {
        Some(khz) => khz as u64,
        None => 0,
    }
}

/// `cpu` is a processor of which only the number `id` is known.
pub open spec fn known_by_id(cpu: Cpu, id: u32) -> bool {
    &&& cpu.id == id
    &&& cpu.governor@.len() == 0
    &&& cpu.driver@.len() == 0
    &&& cpu.freq == 0
}

impl CpuInfo {
    /// No processor, and no model.
    pub fn new() -> (info: Self)
        ensures
            info.model@.len() == 0,
            info.cpus@.len() == 0,
    {
        CpuInfo { model: String::new(), cpus: Vec::new() }
    }

    /// Appends a processor for each number that the list of online
    /// processors names, white space around the list apart.
    pub fn read_cpus_online(&mut self, content: &str)
        ensures
            final(self).model == old(self).model,
            final(self).cpus@.len() == old(self).cpus@.len() + online_cpus(
                trimmed(content@, whitespace()),
            ).len(),
            forall|i: int|
                0 <= i < old(self).cpus@.len() ==> final(self).cpus@[i] == old(self).cpus@[i],
            forall|i: int|
                0 <= i < online_cpus(trimmed(content@, whitespace())).len() ==> known_by_id(
                    #[trigger] final(self).cpus@[old(self).cpus@.len() + i],
                    online_cpus(trimmed(content@, whitespace()))[i],
                ),
    {
        let set = whitespace_set();
        let list = trim_by(content, set.as_slice());
        let ids = parse_online_cpus(list.as_str());
        let ghost held = self.cpus@;
        let mut k: usize = 0;
        while k < ids.len()
            invariant
                k <= ids@.len(),
                held == old(self).cpus@,
                self.model == old(self).model,
                self.cpus@.len() == held.len() + k,
                forall|i: int| 0 <= i < held.len() ==> self.cpus@[i] == held[i],
                forall|i: int|
                    0 <= i < k ==> known_by_id(#[trigger] self.cpus@[held.len() + i], ids@[i]),
            decreases ids@.len() - k,
        {
            self.cpus.push(Cpu { id: ids[k], governor: String::new(), driver: String::new(), freq: 0 });
            k = k + 1;
        }
    }

    /// The model's name in the kernel's processor report.
    pub fn read_model(content: &str) -> (model: String)
        ensures
            model@ == model_of(content@),
    {
        let trim: Vec<char> = vec!['\u{9}', '\u{a}', '\u{c}', '\u{d}', '\u{20}', ':'];
        proof {
            reveal_strlit("\n");
            assert("\n"@ =~= seq!['\n']);
            assert(trim@ =~= model_trim());
        }
        match parse_key_from_text(content, "model name", "\n", Some(trim.as_slice())) {
            Some(model) => model,
            None => String::new(),
        }
    }

    /// The current frequency in kHz that the kernel's file gives.
    pub fn read_freq(content: &str) -> (khz: u64)
        ensures
            khz == frequency_of(content@),
    {
        let set = whitespace_set();
        let text = trim_by(content, set.as_slice());
        match unsigned_from(text.as_str(), u64::MAX) {
            Some(khz) => khz,
            None => 0,
        }
    }

    /// The name of the frequency driver that the kernel's file gives.
    pub fn read_driver(content: &str) -> (driver: String)
        ensures
            driver@ == trimmed(content@, whitespace()),
    {
        let set = whitespace_set();
        trim_by(content, set.as_slice())
    }

    /// The name of the frequency governor that the kernel's file gives.
    pub fn read_governor(content: &str) -> (governor: String)
        ensures
            governor@ == trimmed(content@, whitespace()),
    {
        let set = whitespace_set();
        trim_by(content, set.as_slice())
    }
}

} // verus!

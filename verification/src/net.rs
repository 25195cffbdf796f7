//! The network subsystem, as the kernel's files on each interface give it.

use crate::text::{trim_by, trimmed, unsigned_from, unsigned_of, whitespace, whitespace_set};
use vstd::prelude::*;

verus! {

/// What the kernel's files say of one interface, as they are read.
pub struct IfaceFiles {
    /// The name of the interface.
    pub name: String,
    /// The hardware address.
    pub address: String,
    /// The count of the bytes transmitted.
    pub tx_bytes: String,
    /// The count of the bytes received.
    pub rx_bytes: String,
}

/// One network interface: its name, its address, and its traffic in kB.
#[derive(Default)]
pub struct IfaceInfo {
    pub name: String,
    pub addr: String,
    pub tx_bytes: u64,
    pub rx_bytes: u64,
}

/// The network interfaces of the host.
#[derive(Default)]
pub struct NetInfo {
    pub ifaces: Vec<IfaceInfo>,
}

/// The kB that a count of bytes makes, rounded down; zero where `text`,
/// white space around it apart, is no number.
pub open spec fn kilobytes_of(text: Seq<char>) -> u64 {
    match unsigned_of(trimmed(text, whitespace()), u64::MAX as nat) {
        Some(bytes) => (bytes / 1024) as u64,
        None => 0,
    }
}

/// `info` is the interface that `files` describe.
pub open spec fn describes(files: IfaceFiles, info: IfaceInfo) -> bool {
    &&& info.name@ == files.name@
    &&& info.addr@ == trimmed(files.address@, whitespace())
    &&& info.tx_bytes == kilobytes_of(files.tx_bytes@)
    &&& info.rx_bytes == kilobytes_of(files.rx_bytes@)
}

/// The kB that the count of bytes `text` makes.
pub fn read_kilobytes(text: &str) -> (kilobytes: u64)
    ensures
        kilobytes == kilobytes_of(text@),
{
    let set = whitespace_set();
    let count = trim_by(text, set.as_slice());
    match unsigned_from(count.as_str(), u64::MAX) {
        Some(bytes) => bytes / 1024,
        None => 0,
    }
}

impl IfaceInfo {
    /// The interface that `files` describe.
    pub fn from_files(files: &IfaceFiles) -> (info: Self)
        ensures
            describes(*files, info),
    {
        let set = whitespace_set();
        IfaceInfo {
            name: files.name.clone(),
            addr: trim_by(files.address.as_str(), set.as_slice()),
            tx_bytes: read_kilobytes(files.tx_bytes.as_str()),
            rx_bytes: read_kilobytes(files.rx_bytes.as_str()),
        }
    }
}

impl NetInfo {
    /// No interface.
    pub fn new() -> (info: Self)
        ensures
            info.ifaces@.len() == 0,
    {
        NetInfo { ifaces: Vec::new() }
    }

    /// Appends the interfaces that `entries` describe, in their order.
    pub fn read_net_info(&mut self, entries: &Vec<IfaceFiles>)
        ensures
            final(self).ifaces@.len() == old(self).ifaces@.len() + entries@.len(),
            forall|i: int|
                0 <= i < old(self).ifaces@.len() ==> final(self).ifaces@[i] == old(self).ifaces@[i],
            forall|i: int|
                0 <= i < entries@.len() ==> describes(
                    #[trigger] entries@[i],
                    final(self).ifaces@[old(self).ifaces@.len() + i],
                ),
    {
        let ghost held = self.ifaces@;
        let mut k: usize = 0;
        while k < entries.len()
            invariant
                k <= entries@.len(),
                held == old(self).ifaces@,
                self.ifaces@.len() == held.len() + k,
                forall|i: int| 0 <= i < held.len() ==> self.ifaces@[i] == held[i],
                forall|i: int|
                    0 <= i < k ==> describes(#[trigger] entries@[i], self.ifaces@[held.len() + i]),
            decreases entries@.len() - k,
        {
            let info = IfaceInfo::from_files(&entries[k]);
            self.ifaces.push(info);
            k = k + 1;
        }
    }
}

} // verus!

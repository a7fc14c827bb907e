use vstd::prelude::*;

verus! {

/// Where a buffer lives: the host, or a numbered accelerator.
#[derive(Debug, Clone, Copy, PartialEq, Eq, Hash, Structural)]
pub enum BlackDevice {
    BlackCpu,
    BlackCuda(u32),
    BlackMetal(u32),
}

impl BlackDevice {
    pub fn black_is_cpu(&self) -> (r: bool)
        ensures
            r == (*self is BlackCpu),
    {
        matches!(self, BlackDevice::BlackCpu)
    }

    pub fn black_is_cuda(&self) -> (r: bool)
        ensures
            r == (*self is BlackCuda),
    {
        matches!(self, BlackDevice::BlackCuda(_))
    }

    pub fn black_is_metal(&self) -> (r: bool)
        ensures
            r == (*self is BlackMetal),
    {
        matches!(self, BlackDevice::BlackMetal(_))
    }

    /// The accelerator's number; the host has none.
    pub fn black_ordinal(&self) -> (r: Option<u32>)
        ensures
            r == (match *self {
                BlackDevice::BlackCpu => None,
                BlackDevice::BlackCuda(id) => Some(id),
                BlackDevice::BlackMetal(id) => Some(id),
            }),
    {
        match self {
            BlackDevice::BlackCpu => None,
            BlackDevice::BlackCuda(black_id) => Some(*black_id),
            BlackDevice::BlackMetal(black_id) => Some(*black_id),
        }
    }
}

} // verus!

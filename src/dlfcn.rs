//! Flags for opening a native library, and their combination into the
//! integer that `dlopen` takes.
use vstd::prelude::*;

verus! {

#[allow(non_camel_case_types)]
#[derive(Clone, Copy, Debug, PartialEq, Eq, Structural)]
pub enum DlOpenFlags {
    RTLD_LAZY,
    RTLD_NOW,
    RTLD_GLOBAL,
    RTLD_LOCAL,
    RTLD_NODELETE,
    RTLD_NOLOAD,
    RTLD_DEEPBIND,
}

/// The bit of each flag, as glibc defines it.
pub open spec fn flag_value(f: DlOpenFlags) -> i32 {
    match f {
        DlOpenFlags::RTLD_LAZY => 0x1,
        DlOpenFlags::RTLD_NOW => 0x2,
        DlOpenFlags::RTLD_GLOBAL => 0x100,
        DlOpenFlags::RTLD_LOCAL => 0x0,
        DlOpenFlags::RTLD_NODELETE => 0x1000,
        DlOpenFlags::RTLD_NOLOAD => 0x4,
        DlOpenFlags::RTLD_DEEPBIND => 0x8,
    }
}

/// The bitwise or of the flags' bits.
pub open spec fn combined_flags(s: Seq<DlOpenFlags>) -> i32
    decreases s.len(),
{
    if s.len() == 0 {
        0
    } else {
        combined_flags(s.drop_last()) | flag_value(s.last())
    }
}

impl DlOpenFlags {
    pub fn bits(self) -> (r: i32)
        ensures
            r == flag_value(self),
    {
        match self {
            DlOpenFlags::RTLD_LAZY => 0x1,
            DlOpenFlags::RTLD_NOW => 0x2,
            DlOpenFlags::RTLD_GLOBAL => 0x100,
            DlOpenFlags::RTLD_LOCAL => 0x0,
            DlOpenFlags::RTLD_NODELETE => 0x1000,
            DlOpenFlags::RTLD_NOLOAD => 0x4,
            DlOpenFlags::RTLD_DEEPBIND => 0x8,
        }
    }
}

/// Combines flags into the mode argument of `dlopen`.
pub fn combine_flags(flags: &[DlOpenFlags]) -> (r: i32)
    ensures
        r == combined_flags(flags@),
{
    let mut acc: i32 = 0;
    let mut k: usize = 0;
    while k < flags.len()
        invariant
            k <= flags@.len(),
            acc == combined_flags(flags@.subrange(0, k as int)),
        decreases flags.len() - k,
    {
        proof {
            assert(flags@.subrange(0, k + 1).drop_last() =~= flags@.subrange(0, k as int));
        }
        acc = acc | flags[k].bits();
        k = k + 1;
    }
    assert(flags@.subrange(0, k as int) =~= flags@);
    acc
}

} // verus!

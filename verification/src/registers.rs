use vstd::prelude::*;

verus! {

/// The port of the debug interface that a transfer addresses.
#[derive(Debug, Clone, Copy, PartialEq, Eq, Structural)]
pub enum PortType {
    /// The debug port itself.
    DebugPort,
    /// An access port, by its number.
    AccessPort(u16),
}

/// Address of the ABORT register of the debug port (write only).
pub const ABORT_ADDRESS: u16 = 0x0;

/// Address of the DPIDR register of the debug port (read only).
pub const DPIDR_ADDRESS: u16 = 0x0;

/// Address of the CTRL/STAT register of the debug port.
pub const CTRL_ADDRESS: u16 = 0x4;

/// Address of the RDBUFF register of the debug port (read only).
pub const RDBUFF_ADDRESS: u16 = 0xC;

/// Address of the TARGETSEL register of the debug port (write only).
pub const TARGETSEL_ADDRESS: u16 = 0xC;

/// The sticky flags to clear with a write to the ABORT register.
#[derive(Debug, Clone, Copy, PartialEq, Eq, Structural)]
pub struct Abort {
    /// Clear the sticky overrun flag.
    pub orunerrclr: bool,
    /// Clear the sticky error flag.
    pub stkerrclr: bool,
}

impl Abort {
    /// The word with ORUNERRCLR in bit 4 and STKERRCLR in bit 2.
    pub open spec fn spec_value(self) -> u32 {
        if self.orunerrclr {
            if self.stkerrclr {
                0x14
            } else {
                0x10
            }
        } else if self.stkerrclr {
            0x4
        } else {
            0
        }
    }

    /// The word to write to the ABORT register.
    pub fn value(self) -> (word: u32)
        ensures
            word == self.spec_value(),
            (word & 0x10 != 0) == self.orunerrclr,
            (word & 0x4 != 0) == self.stkerrclr,
            word & !0x14u32 == 0,
    {
        let overrun: u32 = if self.orunerrclr {
            0x10
        } else {
            0
        };
        let error: u32 = if self.stkerrclr {
            0x4
        } else {
            0
        };
        proof {
            law_abort_word(self);
        }
        overrun + error
    }
}

/// The sticky flags that the CTRL/STAT register reports.
#[derive(Debug, Clone, Copy, PartialEq, Eq, Structural)]
pub struct Ctrl {
    /// An overrun was detected.
    pub sticky_orun: bool,
    /// An access port transaction failed.
    pub sticky_err: bool,
}

impl Ctrl {
    /// STICKYORUN is bit 1 of the word, STICKYERR is bit 5.
    pub open spec fn spec_from_word(word: u32) -> Ctrl {
        Ctrl { sticky_orun: (word / 0x2) % 2 == 1, sticky_err: (word / 0x20) % 2 == 1 }
    }

    /// Picks the flags out of the word that was read from the register.
    pub fn from_word(word: u32) -> (flags: Ctrl)
        ensures
            flags == Ctrl::spec_from_word(word),
            flags.sticky_orun == (word & 0x2 != 0),
            flags.sticky_err == (word & 0x20 != 0),
    {
        proof {
            law_ctrl_flags(word);
        }
        Ctrl { sticky_orun: (word / 0x2) % 2 == 1, sticky_err: (word / 0x20) % 2 == 1 }
    }
}

/// A write to ABORT clears what it is meant to clear and nothing else: ORUNERRCLR is bit 4
/// and STKERRCLR is bit 2, and no other bit is ever set.
pub proof fn law_abort_word(abort: Abort)
    ensures
        (abort.spec_value() & 0x10 != 0) == abort.orunerrclr,
        (abort.spec_value() & 0x4 != 0) == abort.stkerrclr,
        abort.spec_value() & !0x14u32 == 0,
{
    assert(0x14u32 & 0x10 != 0 && 0x14u32 & 0x4 != 0 && 0x14u32 & !0x14u32 == 0) by (bit_vector);
    assert(0x10u32 & 0x10 != 0 && 0x10u32 & 0x4 == 0 && 0x10u32 & !0x14u32 == 0) by (bit_vector);
    assert(0x4u32 & 0x10 == 0 && 0x4u32 & 0x4 != 0 && 0x4u32 & !0x14u32 == 0) by (bit_vector);
    assert(0u32 & 0x10 == 0 && 0u32 & 0x4 == 0 && 0u32 & !0x14u32 == 0) by (bit_vector);
}

/// STICKYORUN is bit 1 of CTRL/STAT and STICKYERR is bit 5, whatever the other bits are.
pub proof fn law_ctrl_flags(word: u32)
    ensures
        Ctrl::spec_from_word(word).sticky_orun == (word & 0x2 != 0),
        Ctrl::spec_from_word(word).sticky_err == (word & 0x20 != 0),
        Ctrl::spec_from_word(word) == Ctrl::spec_from_word(word & 0x22),
{
    assert(((word / 0x2) % 2 == 1) == (word & 0x2 != 0)) by (bit_vector);
    assert(((word / 0x20) % 2 == 1) == (word & 0x20 != 0)) by (bit_vector);
    let masked = word & 0x22;
    assert(((masked / 0x2) % 2 == 1) == (word & 0x2 != 0) && ((masked / 0x20) % 2 == 1) == (word
        & 0x20 != 0)) by (bit_vector)
        requires
            masked == word & 0x22,
    ;
}

/// The registers of the debug port stand where the debug interface has them.
pub proof fn law_debug_port_addresses()
    ensures
        ABORT_ADDRESS == 0x0,
        DPIDR_ADDRESS == 0x0,
        CTRL_ADDRESS == 0x4,
        RDBUFF_ADDRESS == 0xC,
        TARGETSEL_ADDRESS == 0xC,
{
}

} // verus!

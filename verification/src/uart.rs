//! UART register addressing.
//!
//! A handler records the addresses of the registers it uses; the byte
//! reads and writes themselves are memory-mapped I/O that the caller
//! performs.

use vstd::prelude::*;

verus! {

/// Base address for UART 0.
pub const UART0_BASE: u64 = 0x1000_0000;

/// Offset in bytes for the receiver buffer register.
pub const RBR_OFFSET: u64 = 0x00;

/// Offset in bytes for the transmitter holding register.
pub const THR_OFFSET: u64 = 0x00;

/// Offset in bytes for the line control register.
pub const LCR_OFFSET: u64 = 0x0C;

/// Offset in bytes for the line status register.
pub const LSR_OFFSET: u64 = 0x14;

/// Line status bitmask for the data ready bit.
pub const LSR_DR_BITMASK: u8 = 0x1;

/// Line status bitmask for the transmit ready bit.
pub const LSR_THRE_BITMASK: u8 = 0x20;

/// The addresses of a UART and (a subset of) its registers.
#[derive(Clone, Copy, PartialEq, Eq, Structural)]
pub struct UartHandler {
    /// The read buffer register.
    pub rbr: u64,
    /// The transmit holding register.
    pub thr: u64,
    /// The line control register.
    pub lcr: u64,
    /// The line status register.
    pub lsr: u64,
}

impl UartHandler {
    /// Creates a new uart handler from a given base address. `base` must
    /// be the base address of a UART for the registers to mean anything.
    /// Consider using [`Self::new_from_uart_index`] instead.
    pub fn new(base: u64) -> (r: Self)
        requires
            base + LSR_OFFSET <= u64::MAX,
        ensures
            r == (UartHandler {
                rbr: (base + RBR_OFFSET) as u64,
                thr: (base + THR_OFFSET) as u64,
                lcr: (base + LCR_OFFSET) as u64,
                lsr: (base + LSR_OFFSET) as u64,
            }),
    {
        Self {
            rbr: base + RBR_OFFSET,
            thr: base + THR_OFFSET,
            lcr: base + LCR_OFFSET,
            lsr: base + LSR_OFFSET,
        }
    }

    /// Tries to create a new UART from an `index` into all the known
    /// UARTs. Returns `None` if no UART corresponds to `index`. The only
    /// UART known to the platform is UART 0.
    pub fn new_from_uart_index(index: u64) -> (r: Option<Self>)
        ensures
            index == 0 ==> r == Some(UartHandler::new_spec(UART0_BASE)),
            index != 0 ==> r is None,
    {
        if index == 0 {
            Some(Self::new(UART0_BASE))
        } else {
            None
        }
    }

    /// The handler that [`Self::new`] builds from `base`.
    pub open spec fn new_spec(base: u64) -> UartHandler {
        UartHandler {
            rbr: (base + RBR_OFFSET) as u64,
            thr: (base + THR_OFFSET) as u64,
            lcr: (base + LCR_OFFSET) as u64,
            lsr: (base + LSR_OFFSET) as u64,
        }
    }
}

} // verus!

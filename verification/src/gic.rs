//! Register arithmetic of the generic interrupt controller.

use vstd::prelude::*;

verus! {

/// Interrupt id that `ack` reports when nothing is pending.
pub const SPURIOUS: u32 = 1023;

/// GIC id of the console UART.
pub const UART_GIC: u8 = 33;

/// The interrupt id held in an acknowledge register value (its low ten bits).
pub fn irq_id(iar: u32) -> (id: u32)
    ensures
        id == iar % 1024,
{
    let id = iar & 0x3FF;
    assert(iar & 0x3FF == iar % 1024) by (bit_vector);
    id
}

/// Whether handling `id` ends with an end-of-interrupt write: every id but the
/// spurious one.
pub fn needs_eoi(id: u32) -> (b: bool)
    ensures
        b == (id != SPURIOUS),
{
    id != SPURIOUS
}

/// Whether `id` is the console UART's interrupt.
pub fn is_uart_irq(id: u32) -> (b: bool)
    ensures
        b == (id == UART_GIC as u32),
{
    id == UART_GIC as u32
}

/// Bit of the second set-enable register (interrupts 32 to 63) for interrupt `n`.
pub fn enable_bit(n: u8) -> (bit: u32)
    requires
        32 <= n < 64,
    ensures
        bit == vstd::arithmetic::power2::pow2((n - 32) as nat),
{
    let k = (n - 32) as u32;
    let bit = 1u32 << k;
    proof {
        vstd::bits::lemma_u32_pow2_no_overflow(k as nat);
        vstd::bits::lemma_u32_shl_is_mul(1, k);
    }
    bit
}

} // verus!

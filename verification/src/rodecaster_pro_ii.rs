//! Reports of the RØDECaster Pro II on its raw HID interrupt endpoints.

use crate::devices::rodecaster_pro_ii::io::spec_init_payload;
use crate::transport::spec_payload;
use crate::wire::u32_bytes;
use vstd::prelude::*;

verus! {

/// The HID interface of the device.
pub const HID_INTERFACE: u8 = 0x9;

/// The interrupt endpoint that the device sends on.
pub const HID_INPUT_ENDPOINT: u8 = 0x85;

/// The interrupt endpoint that the device receives on.
pub const HID_OUTPUT_ENDPOINT: u8 = 0x05;

/// Bytes of one interrupt transfer.
pub const INTERRUPT_SIZE: usize = 256;

/// The command that initialises the device: report id 3, then the framed handshake payload
/// (its length as a little-endian `u32`, then its four bytes).
pub fn init_command() -> (r: Vec<u8>)
    ensures
        r@ == seq![0x03u8] + spec_payload(spec_init_payload()),
{
    let r: Vec<u8> = vec![0x03u8, 0x04u8, 0x00u8, 0x00u8, 0x00u8, 0xADu8, 0x10u8, 0xA7u8, 0xB0u8];
    proof {
        let x: u32 = 4;
        assert(x as u8 == 4u8 && (x >> 8u32) as u8 == 0u8 && (x >> 16u32) as u8 == 0u8 && (x >> 24u32) as u8
            == 0u8) by (bit_vector)
            requires
                x == 4u32,
        ;
        assert(u32_bytes(4u32) =~= seq![4u8, 0u8, 0u8, 0u8]);
        assert(r@ =~= seq![0x03u8] + spec_payload(spec_init_payload()));
    }
    r
}

/// The interrupt transfer that carries `data`: its bytes, then zero bytes up to
/// [`INTERRUPT_SIZE`].
pub fn interrupt_report(data: &[u8]) -> (r: Vec<u8>)
    requires
        data@.len() <= INTERRUPT_SIZE,
    ensures
        r@.len() == INTERRUPT_SIZE,
        r@.subrange(0, data@.len() as int) == data@,
        forall|i: int| data@.len() <= i < INTERRUPT_SIZE ==> r@[i] == 0u8,
{
    let mut r: Vec<u8> = Vec::new();
    r.extend_from_slice(data);
    while r.len() < INTERRUPT_SIZE
        invariant
            data@.len() <= r@.len() <= INTERRUPT_SIZE,
            r@.subrange(0, data@.len() as int) == data@,
            forall|i: int| data@.len() <= i < r@.len() ==> r@[i] == 0u8,
        decreases INTERRUPT_SIZE - r@.len(),
    {
        r.push(0u8);
        proof {
            assert(r@.subrange(0, data@.len() as int) =~= r@.drop_last().subrange(0, data@.len() as int));
        }
    }
    r
}

} // verus!

use vstd::prelude::*;

use crate::modbus::{
    be_u32, build_read_holding_registers_frame, decode_u32_be, spec_frame, spec_read_request_data,
    ModbusError,
};

verus! {

/// First register of the TUF-2000 net accumulator: 0025-0026 hold its
/// integer part (LONG), 0027-0028 its decimal fraction (REAL4).
pub const ACCUMULATOR_REGISTER: u16 = 25;

/// Number of registers read for the net accumulator.
pub const ACCUMULATOR_REGISTER_COUNT: u16 = 4;

/// Request frame reading the net accumulator of flow meter `slave_id`.
pub fn accumulator_request_frame(slave_id: u8) -> (frame: Vec<u8>)
    ensures
        frame@ == spec_frame(
            seq![slave_id, 0x03u8] + spec_read_request_data(
                ACCUMULATOR_REGISTER,
                ACCUMULATOR_REGISTER_COUNT,
            ),
        ),
{
    match build_read_holding_registers_frame(
        slave_id,
        ACCUMULATOR_REGISTER,
        ACCUMULATOR_REGISTER_COUNT,
    ) {
        Ok(f) => f,
        Err(_) => {
            assert(false);
            Vec::new()
        },
    }
}

/// Splits the registers of an accumulator response into the integer part and
/// the bits of the IEEE 754 decimal fraction, both big-endian.
pub fn split_total_accumulator(regs: &[u16]) -> (r: Result<(u32, u32), ModbusError>)
    ensures
        regs@.len() < 4 ==> r == Err::<(u32, u32), ModbusError>(
            ModbusError::NotEnoughRegisters { needed: 4, found: regs@.len() as usize },
        ),
        regs@.len() >= 4 ==> r == Ok::<(u32, u32), ModbusError>(
            (be_u32(regs@[0], regs@[1]), be_u32(regs@[2], regs@[3])),
        ),
{
    if regs.len() < 4 {
        return Err(ModbusError::NotEnoughRegisters { needed: 4, found: regs.len() });
    }
    let integer_words = [regs[0], regs[1]];
    let fraction_words = [regs[2], regs[3]];
    let integer_part = match decode_u32_be(&integer_words) {
        Ok(v) => v,
        Err(e) => return Err(e),
    };
    let fraction_bits = match decode_u32_be(&fraction_words) {
        Ok(v) => v,
        Err(e) => return Err(e),
    };
    Ok((integer_part, fraction_bits))
}

} // verus!

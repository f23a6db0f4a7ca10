//! The instruction input: a numerator and a denominator, each four bytes, most
//! significant byte first.

use vstd::prelude::*;

use byteorder::ByteOrder;

use crate::processor::ProcessError;

verus! {

/// The number of instruction bytes that are read.
pub const INSTRUCTION_LEN: usize = 8;

/// The value of the first four bytes of `b`, most significant first.
pub open spec fn be_value(b: Seq<u8>) -> int {
    16777216 * (b[0] as int) + 65536 * (b[1] as int) + 256 * (b[2] as int) + b[3] as int
}

/// Relies on byteorder's `BigEndian::read_u32`: the first four bytes of `buf`,
/// most significant first. It panics on fewer than four bytes.
#[verifier::external_body]
fn read_u32_be(buf: &[u8]) -> (r: u32)
    requires
        buf@.len() >= 4,
    ensures
        r as int == be_value(buf@),
{
    byteorder::BigEndian::read_u32(buf)
}

/// The two operands of one instruction.
#[derive(Debug, Clone, Copy, PartialEq, Eq, Structural)]
pub struct Instruction {
    pub numerator: u32,
    pub denominator: u32,
}

/// The instruction that `data` holds, if it is long enough; bytes after the
/// eighth are ignored.
pub open spec fn parse(data: Seq<u8>) -> Option<Instruction> {
    if data.len() >= INSTRUCTION_LEN {
        Some(
            Instruction {
                numerator: be_value(data) as u32,
                denominator: be_value(data.subrange(4, data.len() as int)) as u32,
            },
        )
    } else {
        None
    }
}

/// Reads the numerator and the denominator from the start of `data`.
pub fn parse_instruction(data: &[u8]) -> (r: Result<Instruction, ProcessError>)
    ensures
        match parse(data@) {
            Some(ins) => r == Ok::<Instruction, ProcessError>(ins),
            None => r == Err::<Instruction, ProcessError>(ProcessError::MalformedInstructionData),
        },
{
    if data.len() < INSTRUCTION_LEN {
        return Err(ProcessError::MalformedInstructionData);
    }
    let numerator = read_u32_be(data);
    let denominator = read_u32_be(&data[4..data.len()]);
    Ok(Instruction { numerator, denominator })
}

/// The four bytes of `v`, most significant first.
pub open spec fn be_bytes(v: u32) -> Seq<u8> {
    seq![
        (v as int / 16777216 % 256) as u8,
        (v as int / 65536 % 256) as u8,
        (v as int / 256 % 256) as u8,
        (v as int % 256) as u8,
    ]
}

/// The operands written as eight bytes, numerator first, are read back exactly.
pub proof fn lemma_operands_exact(numerator: u32, denominator: u32)
    ensures
        parse(be_bytes(numerator) + be_bytes(denominator)) == Some(
            Instruction { numerator, denominator },
        ),
{
    let data = be_bytes(numerator) + be_bytes(denominator);
    assert(data.subrange(4, data.len() as int) =~= be_bytes(denominator));
    let n = numerator as int;
    let d = denominator as int;
    assert(n == 16777216 * (n / 16777216 % 256) + 65536 * (n / 65536 % 256) + 256 * (n / 256
        % 256) + n % 256) by (nonlinear_arith)
        requires
            0 <= n <= u32::MAX,
    ;
    assert(d == 16777216 * (d / 16777216 % 256) + 65536 * (d / 65536 % 256) + 256 * (d / 256
        % 256) + d % 256) by (nonlinear_arith)
        requires
            0 <= d <= u32::MAX,
    ;
}

} // verus!

//! The account record: one IEEE-754 single-precision value, stored as its four
//! little-endian bytes. A NaN bit pattern has no encoding.

use vstd::prelude::*;

use crate::processor::ProcessError;

verus! {

/// The number of bytes that the encoded record takes.
pub const RECORD_LEN: usize = 4;

/// The value of four bytes read least significant first.
pub open spec fn le_value(b: Seq<u8>) -> int {
    b[0] as int + 256 * (b[1] as int) + 65536 * (b[2] as int) + 16777216 * (b[3] as int)
}

/// Whether a single-precision bit pattern is a NaN: every exponent bit set and
/// a fraction that is not zero.
pub open spec fn is_nan_bits(bits: u32) -> bool {
    (bits as int / 0x80_0000) % 0x100 == 0xff && bits as int % 0x80_0000 != 0
}

/// The four bytes that encode a record holding `bits`.
pub open spec fn encode(bits: u32) -> Seq<u8> {
    seq![
        (bits as int % 256) as u8,
        (bits as int / 256 % 256) as u8,
        (bits as int / 65536 % 256) as u8,
        (bits as int / 16777216 % 256) as u8,
    ]
}

/// The record that `b` encodes, if any: exactly four bytes that do not spell a NaN.
pub open spec fn decode(b: Seq<u8>) -> Option<AccountData> {
    if b.len() == RECORD_LEN && !is_nan_bits(le_value(b) as u32) {
        Some(AccountData { result_bits: le_value(b) as u32 })
    } else {
        None
    }
}

/// The state kept in an account: the last quotient, as the bit pattern of a
/// single-precision float.
#[derive(Debug, Clone, Copy, PartialEq, Eq, Structural)]
pub struct AccountData {
    pub result_bits: u32,
}

proof fn lemma_le_value_bound(b: Seq<u8>)
    requires
        b.len() == RECORD_LEN,
    ensures
        0 <= le_value(b) <= u32::MAX,
{
    assert(0 <= le_value(b) <= u32::MAX) by (nonlinear_arith)
        requires
            0 <= b[0] < 256,
            0 <= b[1] < 256,
            0 <= b[2] < 256,
            0 <= b[3] < 256,
    ;
}

proof fn lemma_encode_value(bits: u32)
    ensures
        le_value(encode(bits)) == bits as int,
{
    let x = bits as int;
    assert(x == x % 256 + 256 * (x / 256 % 256) + 65536 * (x / 65536 % 256) + 16777216 * (
    x / 16777216 % 256)) by (nonlinear_arith)
        requires
            0 <= x <= u32::MAX,
    ;
}

/// Decoding the encoding of a record that has one gives the record back.
pub proof fn lemma_round_trip(rec: AccountData)
    requires
        rec.wf(),
    ensures
        decode(encode(rec.result_bits)) == Some(rec),
{
    lemma_encode_value(rec.result_bits);
}

impl AccountData {
    /// A record has an encoding unless it holds a NaN.
    pub open spec fn wf(self) -> bool {
        !is_nan_bits(self.result_bits)
    }

    /// Whether `bits` is a NaN pattern.
    pub fn is_nan(bits: u32) -> (r: bool)
        ensures
            r == is_nan_bits(bits),
    {
        (bits / 0x80_0000) % 0x100 == 0xff && bits % 0x80_0000 != 0
    }

    /// Reads a record from the whole of `bytes`.
    pub fn try_from_slice(bytes: &[u8]) -> (r: Result<AccountData, ProcessError>)
        ensures
            match decode(bytes@) {
                Some(rec) => r == Ok::<AccountData, ProcessError>(rec),
                None => r == Err::<AccountData, ProcessError>(ProcessError::MalformedAccountData),
            },
    {
        if bytes.len() != RECORD_LEN {
            return Err(ProcessError::MalformedAccountData);
        }
        proof {
            lemma_le_value_bound(bytes@);
        }
        let v: u32 = bytes[0] as u32 + 256 * (bytes[1] as u32) + 65536 * (bytes[2] as u32)
            + 16777216 * (bytes[3] as u32);
        if Self::is_nan(v) {
            Err(ProcessError::MalformedAccountData)
        } else {
            Ok(AccountData { result_bits: v })
        }
    }

    /// The four bytes of the encoding.
    pub fn to_bytes(&self) -> (r: Vec<u8>)
        ensures
            r@ == encode(self.result_bits),
    {
        let b = self.result_bits;
        let r = vec![
            (b % 256) as u8,
            (b / 256 % 256) as u8,
            (b / 65536 % 256) as u8,
            (b / 16777216 % 256) as u8,
        ];
        assert(r@ =~= encode(b));
        r
    }

    /// Writes the encoding over the first four bytes of `buf` and keeps the
    /// rest. Fails, leaving `buf` as it was, when the record holds a NaN or
    /// `buf` is too short.
    pub fn serialize(&self, buf: &mut Vec<u8>) -> (r: Result<(), ProcessError>)
        ensures
            !self.wf() ==> r == Err::<(), ProcessError>(ProcessError::NotANumber)
                && final(buf)@ == old(buf)@,
            self.wf() && old(buf)@.len() < RECORD_LEN ==> r == Err::<(), ProcessError>(
                ProcessError::MalformedAccountData,
            ) && final(buf)@ == old(buf)@,
            self.wf() && old(buf)@.len() >= RECORD_LEN ==> r == Ok::<(), ProcessError>(())
                && final(buf)@ == encode(self.result_bits) + old(buf)@.subrange(
                RECORD_LEN as int,
                old(buf)@.len() as int,
            ),
    {
        if Self::is_nan(self.result_bits) {
            return Err(ProcessError::NotANumber);
        }
        if buf.len() < RECORD_LEN {
            return Err(ProcessError::MalformedAccountData);
        }
        let bytes = self.to_bytes();
        let mut i: usize = 0;
        while i < RECORD_LEN
            invariant
                0 <= i <= RECORD_LEN,
                bytes@ == encode(self.result_bits),
                buf@.len() == old(buf)@.len(),
                RECORD_LEN <= buf@.len(),
                forall|j: int| 0 <= j < i ==> buf@[j] == bytes@[j],
                forall|j: int| i <= j < buf@.len() ==> buf@[j] == old(buf)@[j],
            decreases RECORD_LEN - i,
        {
            buf[i] = bytes[i];
            i = i + 1;
        }
        assert(buf@ =~= encode(self.result_bits) + old(buf)@.subrange(
            RECORD_LEN as int,
            old(buf)@.len() as int,
        ));
        Ok(())
    }
}

} // verus!

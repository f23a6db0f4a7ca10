//! The instruction processor.

use vstd::prelude::*;

use solana_program::pubkey::Pubkey;

use crate::account::{accounts_view, same_key, Account, AccountView};
use crate::instruction::{parse, parse_instruction, Instruction, INSTRUCTION_LEN};
use crate::record::{decode, encode, is_nan_bits, lemma_round_trip, AccountData};

verus! {

/// Why an invocation failed. Each failure leaves every account as it was.
#[derive(Debug, Clone, Copy, PartialEq, Eq, Structural)]
pub enum ProcessError {
    /// The account list is empty.
    MissingAccount,
    /// The first account is not owned by the program.
    IncorrectProgramId,
    /// The instruction input holds fewer than eight bytes.
    MalformedInstructionData,
    /// The account data is not the encoding of a record.
    MalformedAccountData,
    /// The quotient is a NaN, which the record cannot hold.
    NotANumber,
}

/// The checks made before the quotient is computed, in the order they are
/// made, and the operands when all of them pass.
pub open spec fn operands_for(program_id: Pubkey, accounts: Seq<AccountView>, data: Seq<u8>) -> Result<
    Instruction,
    ProcessError,
> {
    if accounts.len() == 0 {
        Err(ProcessError::MissingAccount)
    } else if accounts[0].owner != program_id {
        Err(ProcessError::IncorrectProgramId)
    } else if parse(data) is None {
        Err(ProcessError::MalformedInstructionData)
    } else if decode(accounts[0].data) is None {
        Err(ProcessError::MalformedAccountData)
    } else {
        Ok(parse(data)->Some_0)
    }
}

/// What one invocation returns and leaves in the accounts, given the bit
/// pattern of the quotient of its operands: on success the first account's
/// data becomes the record of the quotient; on failure nothing changes.
pub open spec fn outcome(
    program_id: Pubkey,
    accounts: Seq<AccountView>,
    data: Seq<u8>,
    quotient: u32,
) -> (Result<(), ProcessError>, Seq<AccountView>) {
    match operands_for(program_id, accounts, data) {
        Err(e) => (Err(e), accounts),
        Ok(_) => if is_nan_bits(quotient) {
            (Err(ProcessError::NotANumber), accounts)
        } else {
            (
                Ok(()),
                accounts.update(0, AccountView { owner: accounts[0].owner, data: encode(quotient) }),
            )
        },
    }
}

/// Runs one instruction. The first account must be owned by `program_id`;
/// `instruction_data` holds the numerator and the denominator; `divide` gives
/// the bit pattern of their quotient, which is then stored in the first
/// account's data.
pub fn process_instruction<F: Fn(u32, u32) -> u32>(
    program_id: &Pubkey,
    accounts: &mut Vec<Account>,
    instruction_data: &[u8],
    divide: F,
) -> (r: Result<(), ProcessError>)
    requires
        forall|n: u32, d: u32| divide.requires((n, d)),
    ensures
        exists|q: u32|
            {
                &&& (operands_for(*program_id, accounts_view(old(accounts)@), instruction_data@) is Ok
                    ==> divide.ensures(
                    (
                        operands_for(
                            *program_id,
                            accounts_view(old(accounts)@),
                            instruction_data@,
                        )->Ok_0.numerator,
                        operands_for(
                            *program_id,
                            accounts_view(old(accounts)@),
                            instruction_data@,
                        )->Ok_0.denominator,
                    ),
                    q,
                ))
                &&& (r, accounts_view(final(accounts)@)) == outcome(
                    *program_id,
                    accounts_view(old(accounts)@),
                    instruction_data@,
                    q,
                )
            },
{
    let ghost before = accounts_view(accounts@);
    if accounts.len() == 0 {
        assert(outcome(*program_id, before, instruction_data@, 0).0 == Err::<(), ProcessError>(
            ProcessError::MissingAccount,
        ));
        return Err(ProcessError::MissingAccount);
    }
    assert(before[0] == accounts@[0]@);
    if !same_key(&accounts[0].owner, program_id) {
        assert(outcome(*program_id, before, instruction_data@, 0).0 == Err::<(), ProcessError>(
            ProcessError::IncorrectProgramId,
        ));
        return Err(ProcessError::IncorrectProgramId);
    }
    let ins = match parse_instruction(instruction_data) {
        Ok(ins) => ins,
        Err(e) => {
            assert(outcome(*program_id, before, instruction_data@, 0).0 == Err::<(), ProcessError>(
                e,
            ));
            return Err(e);
        },
    };
    let mut record = match AccountData::try_from_slice(accounts[0].data.as_slice()) {
        Ok(rec) => rec,
        Err(e) => {
            assert(outcome(*program_id, before, instruction_data@, 0).0 == Err::<(), ProcessError>(
                e,
            ));
            return Err(e);
        },
    };
    let q = divide(ins.numerator, ins.denominator);
    record.result_bits = q;
    let r = record.serialize(&mut accounts[0].data);
    proof {
        let after = accounts_view(accounts@);
        if !is_nan_bits(q) {
            assert(before[0].data.subrange(4, before[0].data.len() as int) =~= Seq::<u8>::empty());
            assert(encode(q) + Seq::<u8>::empty() =~= encode(q));
        }
        assert(after =~= outcome(*program_id, before, instruction_data@, q).1);
    }
    r
}

/// An account owned by another program is refused, whatever the input and the
/// quotient, and every account is left as it was.
pub proof fn lemma_foreign_owner_refused(
    program_id: Pubkey,
    accounts: Seq<AccountView>,
    data: Seq<u8>,
    quotient: u32,
)
    requires
        accounts.len() > 0,
        accounts[0].owner != program_id,
    ensures
        outcome(program_id, accounts, data, quotient) == (
            Err::<(), ProcessError>(ProcessError::IncorrectProgramId),
            accounts,
        ),
{
}

/// After a successful invocation the first account holds its quotient, and a
/// second invocation with a long enough input stores its own quotient over it.
pub proof fn lemma_later_result_overwrites(
    program_id: Pubkey,
    accounts: Seq<AccountView>,
    first: Seq<u8>,
    first_quotient: u32,
    second: Seq<u8>,
    second_quotient: u32,
)
    requires
        outcome(program_id, accounts, first, first_quotient).0 is Ok,
        second.len() >= INSTRUCTION_LEN,
        !is_nan_bits(second_quotient),
    ensures
        ({
            let mid = outcome(program_id, accounts, first, first_quotient).1;
            let last = outcome(program_id, mid, second, second_quotient);
            &&& decode(mid[0].data) == Some(AccountData { result_bits: first_quotient })
            &&& last.0 is Ok
            &&& decode(last.1[0].data) == Some(AccountData { result_bits: second_quotient })
            &&& last.1.len() == accounts.len()
        }),
{
    lemma_round_trip(AccountData { result_bits: first_quotient });
    lemma_round_trip(AccountData { result_bits: second_quotient });
}

} // verus!

//! Accounts as the processor sees them: an owner and a data buffer.

use vstd::prelude::*;

use solana_program::pubkey::Pubkey;

verus! {

#[verifier::external_type_specification]
#[verifier::external_body]
pub struct ExPubkey(Pubkey);

/// Relies on the `PartialEq` that solana's `Pubkey` derives: two keys are
/// equal exactly when their bytes are, that is when they are the same value.
#[verifier::external_body]
pub(crate) fn same_key(a: &Pubkey, b: &Pubkey) -> (r: bool)
    ensures
        r == (*a == *b),
{
    a == b
}

/// One account handed to the program: the program that owns it and its data.
#[derive(Debug)]
pub struct Account {
    pub owner: Pubkey,
    pub data: Vec<u8>,
}

/// What an account holds, with its data as a sequence of bytes.
pub struct AccountView {
    pub owner: Pubkey,
    pub data: Seq<u8>,
}

impl View for Account {
    type V = AccountView;

    open spec fn view(&self) -> AccountView {
        AccountView { owner: self.owner, data: self.data@ }
    }
}

/// The views of a list of accounts.
pub open spec fn accounts_view(accounts: Seq<Account>) -> Seq<AccountView> {
    accounts.map_values(|a: Account| a@)
}

impl Account {
    pub fn new(owner: Pubkey, data: Vec<u8>) -> (r: Account)
        ensures
            r.owner == owner,
            r.data@ == data@,
    {
        Account { owner, data }
    }
}

} // verus!

//! Who may change how the exchange is run, and the changes they may make.

use vstd::prelude::*;
use crate::context::{AccountId, Context, assert_one_yocto};
use crate::seqs::{texts, opt_text, contains_string};
use crate::bet::{Contract, ContractMetadata, ContractMetadataView, ContractView, Error};

verus! {

/// `caller` may administer: with no list of administrators, the owner may;
/// with a list that names someone, the owner and those named may; with a
/// list that names nobody, nobody may.
pub open spec fn is_admin(caller: Seq<char>, owner: Seq<char>, admins: Option<Seq<Seq<char>>>) -> bool {
    match admins {
        Some(list) => list.len() > 0 && (caller == owner || list.contains(caller)),
        None => caller == owner,
    }
}

/// Whether `caller` may administer; see [`is_admin`].
pub fn assert_admin(caller: &AccountId, owner_id: &AccountId, admins: &Option<Vec<AccountId>>) -> (ok:
    bool)
    ensures
        ok == is_admin(
            caller@,
            owner_id@,
            match *admins {
                Some(list) => Some(texts(list@)),
                None => None,
            },
        ),
{
    match admins {
        Some(list) => {
            assert(texts(list@).len() == list@.len());
            list.len() > 0 && (*caller == *owner_id || contains_string(list, caller))
        },
        None => *caller == *owner_id,
    }
}

/// A copy of a list of strings.
pub fn clone_strings(list: &Vec<String>) -> (copy: Vec<String>)
    ensures
        texts(copy@) == texts(list@),
{
    let mut copy: Vec<String> = Vec::new();
    let mut i: usize = 0;
    while i < list.len()
        invariant
            i <= list.len(),
            copy@.len() == i,
            forall|j: int| 0 <= j < i ==> copy@[j]@ == list@[j]@,
        decreases list.len() - i,
    {
        copy.push(list[i].clone());
        i += 1;
    }
    assert(texts(copy@) =~= texts(list@));
    copy
}

fn clone_text(text: &Option<String>) -> (copy: Option<String>)
    ensures
        opt_text(copy) == opt_text(*text),
{
    match text {
        Some(t) => Some(t.clone()),
        None => None,
    }
}

fn clone_bytes(bytes: &Vec<u8>) -> (copy: Vec<u8>)
    ensures
        copy@ == bytes@,
{
    let mut copy: Vec<u8> = Vec::new();
    let mut i: usize = 0;
    while i < bytes.len()
        invariant
            i <= bytes.len(),
            copy@ == bytes@.subrange(0, i as int),
        decreases bytes.len() - i,
    {
        copy.push(bytes[i]);
        assert(copy@ =~= bytes@.subrange(0, i + 1));
        i += 1;
    }
    assert(copy@ =~= bytes@);
    copy
}

impl Clone for ContractMetadata {
    fn clone(&self) -> (copy: Self)
        ensures
            copy@ == self@,
    {
        ContractMetadata {
            spec: self.spec.clone(),
            name: self.name.clone(),
            symbol: self.symbol.clone(),
            icon: clone_text(&self.icon),
            base_uri: clone_text(&self.base_uri),
            reference: clone_text(&self.reference),
            reference_hash: match &self.reference_hash {
                Some(hash) => Some(clone_bytes(hash)),
                None => None,
            },
            pool: clone_text(&self.pool),
            admins: match &self.admins {
                Some(admins) => Some(clone_strings(admins)),
                None => None,
            },
        }
    }
}

/// Why a change of the staking pool is refused, if it is.
pub open spec fn pool_change_refusal(state: ContractView, ctx: Context) -> Option<Error> {
    if !is_admin(ctx.predecessor_account_id@, state.owner_id, state.metadata.admins) {
        Some(Error::NotAdmin)
    } else if ctx.attached_deposit != 1 {
        Some(Error::OneYocto)
    } else {
        None
    }
}

/// Why a change of the administrators is refused, if it is.
pub open spec fn admin_change_refusal(state: ContractView, ctx: Context) -> Option<Error> {
    if ctx.attached_deposit != 1 {
        Some(Error::OneYocto)
    } else if !is_admin(ctx.predecessor_account_id@, state.owner_id, state.metadata.admins) {
        Some(Error::NotAdmin)
    } else {
        None
    }
}

impl Contract {
    /// Names the staking pool to use from now on and returns the metadata
    /// as changed. Only an administrator may, with one unit attached.
    pub fn change_stake_pool(&mut self, ctx: &Context, pool: AccountId) -> (result: Result<
        ContractMetadata,
        Error,
    >)
        requires
            old(self).wf(),
        ensures
            final(self).wf(),
            match pool_change_refusal(old(self)@, *ctx) {
                Some(error) => result == Err::<ContractMetadata, Error>(error) && final(self)@
                    == old(self)@,
                None => {
                    let changed = ContractMetadataView { pool: Some(pool@), ..old(self)@.metadata };
                    &&& result matches Ok(metadata)
                    &&& metadata@ == changed
                    &&& final(self)@ == (ContractView { metadata: changed, ..old(self)@ })
                },
            },
    {
        if !assert_admin(&ctx.predecessor_account_id, &self.owner_id, &self.metadata.admins) {
            return Err(Error::NotAdmin);
        }
        if !assert_one_yocto(ctx.attached_deposit) {
            return Err(Error::OneYocto);
        }
        self.metadata.pool = Some(pool);
        Ok(self.metadata.clone())
    }

    /// Names the administrators from now on and returns the metadata as
    /// changed. Only an administrator may, with one unit attached.
    pub fn change_admin_users(&mut self, ctx: &Context, admins: Vec<AccountId>) -> (result: Result<
        ContractMetadata,
        Error,
    >)
        requires
            old(self).wf(),
        ensures
            final(self).wf(),
            match admin_change_refusal(old(self)@, *ctx) {
                Some(error) => result == Err::<ContractMetadata, Error>(error) && final(self)@
                    == old(self)@,
                None => {
                    let changed = ContractMetadataView {
                        admins: Some(texts(admins@)),
                        ..old(self)@.metadata
                    };
                    &&& result matches Ok(metadata)
                    &&& metadata@ == changed
                    &&& final(self)@ == (ContractView { metadata: changed, ..old(self)@ })
                },
            },
    {
        if !assert_one_yocto(ctx.attached_deposit) {
            return Err(Error::OneYocto);
        }
        if !assert_admin(&ctx.predecessor_account_id, &self.owner_id, &self.metadata.admins) {
            return Err(Error::NotAdmin);
        }
        self.metadata.admins = Some(admins);
        Ok(self.metadata.clone())
    }
}

} // verus!

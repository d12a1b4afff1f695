//! Becoming a member.
//!
//! The first three accounts that register are admitted at once. For every
//! later one a motion is opened, and the account is admitted when the
//! members adopt it.

use vstd::prelude::*;
use crate::context::{Balance, Context, Transfer, TransferView, transfers_view, assert_min_one_near, ONE_NEAR};
use crate::voting::{Contract, ContractView, Voter, VoterStatus, VoterView, VotingError, voters_view};
use crate::voting::motion::{motion_time, new_motion, with_motion};
use crate::voting::tally::ids_in_order;
use crate::voting::tally::{registration_description, registration_text};
use crate::voting::vote::{is_member};

verus! {

/// The answer to a registration: the members, and the payments to make.
#[derive(Debug)]
pub struct Registration {
    pub voters: Vec<Voter>,
    pub transfers: Vec<Transfer>,
}

/// Why a registration is refused, if it is: the deposit is less than one
/// token, or a motion has to be opened for the signer and no identifier is
/// left.
pub open spec fn registration_refusal(state: ContractView, ctx: Context) -> Option<VotingError> {
    if ctx.attached_deposit < ONE_NEAR {
        Some(VotingError::MinOneNear)
    } else if !is_member(state.voters, ctx.signer_account_id@) && state.voters.len() > 2
        && motion_time(state, ctx.now()) == u64::MAX {
        Some(VotingError::IdentifiersExhausted)
    } else {
        None
    }
}

/// The state after the signer has registered. A member stays what it is. A
/// new account becomes the first of the members: admitted if it is among
/// the first three, and else waiting for the motion that is opened for it.
pub open spec fn registered_state(state: ContractView, ctx: Context) -> ContractView {
    let signer = ctx.signer_account_id@;
    if is_member(state.voters, signer) {
        state
    } else if state.voters.len() <= 2 {
        ContractView {
            voters: seq![
                VoterView { account_id: signer, vote: None, status: VoterStatus::REGISTERED },
            ] + state.voters,
            ..state
        }
    } else {
        ContractView {
            voters: seq![
                VoterView { account_id: signer, vote: None, status: VoterStatus::UNREGISTERED },
            ] + state.voters,
            ..with_motion(
                state,
                ctx.now(),
                new_motion(
                    state.voters,
                    motion_time(state, ctx.now()),
                    None,
                    registration_text(signer),
                    None,
                    None,
                ),
            )
        }
    }
}

/// What is left of a registration's deposit after the fee, when that is
/// worth sending back.
pub open spec fn surplus(receiver: Seq<char>, amount: int) -> Seq<TransferView> {
    if amount > 1 {
        seq![TransferView { receiver, amount: amount as Balance }]
    } else {
        Seq::empty()
    }
}

/// The payments that a registration calls for. A member gets the deposit
/// back. A new account pays the fee of one token to the voting module and
/// gets the rest back.
pub open spec fn registration_transfers(state: ContractView, ctx: Context) -> Seq<TransferView> {
    if is_member(state.voters, ctx.signer_account_id@) {
        surplus(ctx.predecessor_account_id@, ctx.attached_deposit as int)
    } else {
        seq![TransferView { receiver: ctx.current_account_id@, amount: ONE_NEAR }] + surplus(
            ctx.predecessor_account_id@,
            ctx.attached_deposit - ONE_NEAR,
        )
    }
}

/// A copy of a list of members.
pub fn clone_voters(voters: &Vec<Voter>) -> (copy: Vec<Voter>)
    ensures
        copy@ == voters@,
{
    let mut copy: Vec<Voter> = Vec::new();
    let mut i: usize = 0;
    while i < voters.len()
        invariant
            i <= voters.len(),
            copy@ == voters@.subrange(0, i as int),
        decreases voters.len() - i,
    {
        copy.push(voters[i].clone());
        assert(copy@ =~= voters@.subrange(0, i + 1));
        i += 1;
    }
    assert(copy@ =~= voters@);
    copy
}

impl Contract {
    /// Registers the signer, who attaches one token at least.
    ///
    /// A registration that [`registration_refusal`] refuses changes nothing.
    /// Otherwise the state becomes [`registered_state`], and the answer
    /// lists the members and the payments of [`registration_transfers`].
    pub fn register(&mut self, ctx: &Context) -> (result: Result<Registration, VotingError>)
        requires
            old(self).wf(),
            ctx.wf(),
        ensures
            final(self).wf(),
            ids_in_order(old(self)@) ==> ids_in_order(final(self)@),
            match registration_refusal(old(self)@, *ctx) {
                Some(error) => result == Err::<Registration, VotingError>(error) && final(self)@
                    == old(self)@,
                None => {
                    &&& result matches Ok(registration)
                    &&& final(self)@ == registered_state(old(self)@, *ctx)
                    &&& voters_view(registration.voters@) == final(self)@.voters
                    &&& transfers_view(registration.transfers@) == registration_transfers(
                        old(self)@,
                        *ctx,
                    )
                },
            },
    {
        if !assert_min_one_near(ctx.attached_deposit) {
            return Err(VotingError::MinOneNear);
        }
        let mut transfers: Vec<Transfer> = Vec::new();
        if self.user_exists(&ctx.signer_account_id) {
            if ctx.attached_deposit > 1 {
                transfers.push(
                    Transfer {
                        receiver: ctx.predecessor_account_id.clone(),
                        amount: ctx.attached_deposit,
                    },
                );
            }
            assert(transfers_view(transfers@) =~= registration_transfers(old(self)@, *ctx));
        } else {
            let mut status = VoterStatus::UNREGISTERED;
            if self.voters.len() <= 2 {
                status = VoterStatus::REGISTERED;
            } else {
                let description = registration_description(&ctx.signer_account_id);
                match self.internal_motion(ctx, None, description) {
                    Ok(_) => {},
                    Err(error) => {
                        return Err(error);
                    },
                }
            }
            let voter = Voter { account_id: ctx.signer_account_id.clone(), vote: None, status };
            let ghost member = voter@;
            self.voters.insert(0, voter);
            assert(voters_view(self.voters@) =~= seq![member] + old(self)@.voters);
            transfers.push(Transfer { receiver: ctx.current_account_id.clone(), amount: ONE_NEAR });
            let refund = ctx.attached_deposit - ONE_NEAR;
            if refund > 1 {
                transfers.push(
                    Transfer { receiver: ctx.predecessor_account_id.clone(), amount: refund },
                );
            }
            assert(transfers_view(transfers@) =~= registration_transfers(old(self)@, *ctx));
        }
        Ok(Registration { voters: clone_voters(&self.voters), transfers })
    }

    /// The members.
    pub fn registered(&self) -> (voters: Vec<Voter>)
        ensures
            voters_view(voters@) == self@.voters,
    {
        clone_voters(&self.voters)
    }
}

} // verus!

//! The wagering exchange: bets, stakes, and the state that holds them.

use vstd::prelude::*;
use crate::context::{AccountId, Balance, Timestamp, EpochHeight};
use crate::table::{Table, has_key, index_of, keys_unique};
use crate::seqs::{texts, opt_text};
use crate::bet::matching::{stakes_sound, balanced, settled, settled_but};


pub mod matching;
pub mod staking;
pub mod earnings;
pub mod cancel;
pub mod settlement;
pub mod admin;
pub mod enumerable;
pub mod validity;

verus! {

/// The number of an accounting epoch.
pub type Epoch = u64;

/// The subject of a bet.
pub type Person = String;

/// The identifier of a bet.
pub type BetId = String;

/// The identifier of a motion.
pub type MotionId = String;

/// The identifier of a stake.
pub type StakeId = String;

/// What a bet predicts.
#[derive(Clone, Copy, PartialEq, Eq, Structural, Debug, Hash)]
pub enum Prediction {
    Reduction,
}

/// The side of a bet that a stake takes.
#[derive(Clone, Copy, PartialEq, Eq, Structural, Debug, Hash)]
pub enum Position {
    Back,
    Lay,
}

/// A proposition with an end time.
#[derive(PartialEq, Eq, Debug, Hash)]
pub struct Bet {
    pub prediction: Prediction,
    pub person: String,
    pub end: Timestamp,
    pub motion_id: Option<String>,
}

/// The model of a [`Bet`].
pub struct BetView {
    pub prediction: Prediction,
    pub person: Seq<char>,
    pub end: Timestamp,
    pub motion_id: Option<Seq<char>>,
}

impl View for Bet {
    type V = BetView;

    open spec fn view(&self) -> BetView {
        BetView {
            prediction: self.prediction,
            person: self.person@,
            end: self.end,
            motion_id: opt_text(self.motion_id),
        }
    }
}

impl Clone for Bet {
    fn clone(&self) -> (copy: Self)
        ensures
            copy == *self,
    {
        Bet {
            prediction: self.prediction,
            person: self.person.clone(),
            end: self.end,
            motion_id: match &self.motion_id {
                Some(id) => Some(id.clone()),
                None => None,
            },
        }
    }
}

/// A wager of a fixed amount on one side of a bet.
#[derive(PartialEq, Eq, Debug, Hash)]
pub struct Stake {
    pub bet_id: BetId,
    pub position: Position,
    pub amount: Balance,
    pub staker: AccountId,
    pub unmatched: Balance,
    pub gentlemans: bool,
    pub epoch: EpochHeight,
}

/// The model of a [`Stake`].
pub struct StakeView {
    pub bet_id: Seq<char>,
    pub position: Position,
    pub amount: Balance,
    pub staker: Seq<char>,
    pub unmatched: Balance,
    pub gentlemans: bool,
    pub epoch: EpochHeight,
}

impl View for Stake {
    type V = StakeView;

    open spec fn view(&self) -> StakeView {
        StakeView {
            bet_id: self.bet_id@,
            position: self.position,
            amount: self.amount,
            staker: self.staker@,
            unmatched: self.unmatched,
            gentlemans: self.gentlemans,
            epoch: self.epoch,
        }
    }
}

impl Clone for Stake {
    fn clone(&self) -> (copy: Self)
        ensures
            copy == *self,
    {
        Stake {
            bet_id: self.bet_id.clone(),
            position: self.position,
            amount: self.amount,
            staker: self.staker.clone(),
            unmatched: self.unmatched,
            gentlemans: self.gentlemans,
            epoch: self.epoch,
        }
    }
}

/// The rows of the stake table: each a stake identifier with its stake.
pub type StakeRows = Seq<(Seq<char>, StakeView)>;

/// The record of a cancellation: what was unmatched when the staker asked
/// for it back, and whether it has been paid out.
#[derive(PartialEq, Eq, Debug, Hash)]
pub struct CancelledStake {
    pub bet_id: BetId,
    pub amount: Balance,
    pub staker: AccountId,
    pub epoch: EpochHeight,
    pub cancelled: bool,
}

/// The model of a [`CancelledStake`].
pub struct CancelledStakeView {
    pub bet_id: Seq<char>,
    pub amount: Balance,
    pub staker: Seq<char>,
    pub epoch: EpochHeight,
    pub cancelled: bool,
}

impl View for CancelledStake {
    type V = CancelledStakeView;

    open spec fn view(&self) -> CancelledStakeView {
        CancelledStakeView {
            bet_id: self.bet_id@,
            amount: self.amount,
            staker: self.staker@,
            epoch: self.epoch,
            cancelled: self.cancelled,
        }
    }
}

impl Clone for CancelledStake {
    fn clone(&self) -> (copy: Self)
        ensures
            copy == *self,
    {
        CancelledStake {
            bet_id: self.bet_id.clone(),
            amount: self.amount,
            staker: self.staker.clone(),
            epoch: self.epoch,
            cancelled: self.cancelled,
        }
    }
}

/// What a stake has earned: the last two epochs at which it was looked at,
/// and the yield accrued up to the later one.
#[derive(Clone, Copy, PartialEq, Eq, Debug)]
pub struct StakeEarning {
    pub epochs: (u64, u64),
    pub yield_balance: Balance,
}

impl View for StakeEarning {
    type V = StakeEarning;

    open spec fn view(&self) -> StakeEarning {
        *self
    }
}

/// The earnings of one staker, by stake.
pub struct Account {
    pub earnings: Table<StakeEarning>,
}

/// The model of an [`Account`].
pub struct AccountView {
    pub earnings: Seq<(Seq<char>, StakeEarning)>,
}

impl View for Account {
    type V = AccountView;

    open spec fn view(&self) -> AccountView {
        AccountView { earnings: self.earnings@ }
    }
}

/// A stake's earnings together with its identifier and its amount.
#[derive(PartialEq, Eq, Debug)]
pub struct WrappedStakeEarning {
    pub stake_id: StakeId,
    pub epochs: (u64, u64),
    pub yield_balance: Balance,
    pub total_balance: Balance,
}

/// A motion as the voting service reports it.
#[derive(PartialEq, Eq, Debug)]
pub struct Motion {
    pub motion_id: MotionId,
    pub category: Option<String>,
    pub description: String,
    pub status: String,
    pub registered: Vec<AccountId>,
    pub log: Vec<String>,
    pub quorum: Option<u32>,
    pub end: Option<Timestamp>,
}

/// A bet together with its identifier.
#[derive(PartialEq, Eq, Debug)]
pub struct WrappedBet {
    pub bet_id: BetId,
    pub prediction: Prediction,
    pub person: String,
    pub end: Timestamp,
}

/// The model of a [`WrappedBet`].
pub struct WrappedBetView {
    pub bet_id: Seq<char>,
    pub prediction: Prediction,
    pub person: Seq<char>,
    pub end: Timestamp,
}

impl View for WrappedBet {
    type V = WrappedBetView;

    open spec fn view(&self) -> WrappedBetView {
        WrappedBetView {
            bet_id: self.bet_id@,
            prediction: self.prediction,
            person: self.person@,
            end: self.end,
        }
    }
}

/// A stake together with its identifier.
#[derive(PartialEq, Eq, Debug)]
pub struct WrappedStake {
    pub stake_id: StakeId,
    pub bet_id: BetId,
    pub position: Position,
    pub amount: Balance,
    pub staker: AccountId,
    pub unmatched: Balance,
    pub gentlemans: bool,
}

/// The model of a [`WrappedStake`].
pub struct WrappedStakeView {
    pub stake_id: Seq<char>,
    pub bet_id: Seq<char>,
    pub position: Position,
    pub amount: Balance,
    pub staker: Seq<char>,
    pub unmatched: Balance,
    pub gentlemans: bool,
}

impl View for WrappedStake {
    type V = WrappedStakeView;

    open spec fn view(&self) -> WrappedStakeView {
        WrappedStakeView {
            stake_id: self.stake_id@,
            bet_id: self.bet_id@,
            position: self.position,
            amount: self.amount,
            staker: self.staker@,
            unmatched: self.unmatched,
            gentlemans: self.gentlemans,
        }
    }
}

/// What the exchange says about itself, and who runs it.
#[derive(PartialEq, Eq, Debug)]
pub struct ContractMetadata {
    pub spec: String,
    pub name: String,
    pub symbol: String,
    pub icon: Option<String>,
    pub base_uri: Option<String>,
    pub reference: Option<String>,
    pub reference_hash: Option<Vec<u8>>,
    pub pool: Option<AccountId>,
    pub admins: Option<Vec<AccountId>>,
}

/// The model of a [`ContractMetadata`].
pub struct ContractMetadataView {
    pub spec: Seq<char>,
    pub name: Seq<char>,
    pub symbol: Seq<char>,
    pub icon: Option<Seq<char>>,
    pub base_uri: Option<Seq<char>>,
    pub reference: Option<Seq<char>>,
    pub reference_hash: Option<Seq<u8>>,
    pub pool: Option<Seq<char>>,
    pub admins: Option<Seq<Seq<char>>>,
}

impl View for ContractMetadata {
    type V = ContractMetadataView;

    open spec fn view(&self) -> ContractMetadataView {
        ContractMetadataView {
            spec: self.spec@,
            name: self.name@,
            symbol: self.symbol@,
            icon: opt_text(self.icon),
            base_uri: opt_text(self.base_uri),
            reference: opt_text(self.reference),
            reference_hash: match self.reference_hash {
                Some(hash) => Some(hash@),
                None => None,
            },
            pool: opt_text(self.pool),
            admins: match self.admins {
                Some(admins) => Some(texts(admins@)),
                None => None,
            },
        }
    }
}

/// The smallest deposit that a stake may be made with.
pub const MIN_STAKE: Balance = 69_000_000_000_000_000_000_000;

/// The yearly yield as a fraction: numerator and denominator.
pub const APY: (u32, u32) = (45, 100);

/// The number of epochs in a year.
pub const EPOCHS_PER_YEAR: u128 = 730;

/// What differs between the networks that the exchange runs on.
#[derive(PartialEq, Eq, Debug)]
pub struct Settings {
    /// The staking pool used while the metadata names none.
    pub default_stake_pool: AccountId,
    /// The account of the voting service.
    pub voting_contract: AccountId,
    /// Epochs that must pass between a cancellation and its refund.
    pub refund_delay_epochs: u8,
    /// How far in the future a bet must end, in nanoseconds.
    pub min_duration: u64,
    /// Epochs added to the current one when yield is computed.
    pub epoch_offset: u64,
}

/// The model of [`Settings`].
pub struct SettingsView {
    pub default_stake_pool: Seq<char>,
    pub voting_contract: Seq<char>,
    pub refund_delay_epochs: u8,
    pub min_duration: u64,
    pub epoch_offset: u64,
}

impl View for Settings {
    type V = SettingsView;

    open spec fn view(&self) -> SettingsView {
        SettingsView {
            default_stake_pool: self.default_stake_pool@,
            voting_contract: self.voting_contract@,
            refund_delay_epochs: self.refund_delay_epochs,
            min_duration: self.min_duration,
            epoch_offset: self.epoch_offset,
        }
    }
}

impl Settings {
    /// The settings of the main network.
    pub fn mainnet() -> (settings: Settings)
        ensures
            settings@ == (SettingsView {
                default_stake_pool: "astro-stakers.poolv1.near"@,
                voting_contract: "voting.titstake.testnet.near"@,
                refund_delay_epochs: 4,
                min_duration: 2_592_000_000_000_000,
                epoch_offset: 0,
            }),
    {
        Settings {
            default_stake_pool: "astro-stakers.poolv1.near".to_owned(),
            voting_contract: "voting.titstake.testnet.near".to_owned(),
            refund_delay_epochs: 4,
            min_duration: 2_592_000_000_000_000,
            epoch_offset: 0,
        }
    }

    /// The settings of the test network: no delays, and yield computed as if a
    /// month had passed.
    pub fn testnet() -> (settings: Settings)
        ensures
            settings@ == (SettingsView {
                default_stake_pool: "legends.pool.f863973.m0"@,
                voting_contract: "dev-1663982099301-84507361434162"@,
                refund_delay_epochs: 0,
                min_duration: 0,
                epoch_offset: 60,
            }),
    {
        Settings {
            default_stake_pool: "legends.pool.f863973.m0".to_owned(),
            voting_contract: "dev-1663982099301-84507361434162".to_owned(),
            refund_delay_epochs: 0,
            min_duration: 0,
            epoch_offset: 60,
        }
    }
}

/// What can make an operation of the exchange fail. A failed operation
/// leaves the state as it was.
#[derive(Clone, Copy, PartialEq, Eq, Structural, Debug)]
pub enum Error {
    /// The deposit is below the smallest stake.
    MinStake,
    /// The bet identifier is malformed.
    InvalidBetId,
    /// The stake identifier is malformed.
    InvalidStakeId,
    /// A stake with this identifier exists.
    StakeExists,
    /// The bet would end too soon.
    InvalidEnd,
    /// The deposit does not cover the storage cost.
    InsufficientDeposit,
    /// No stake, or no cancellation, has this identifier.
    StakeMissing,
    /// No bet has this identifier.
    BetMissing,
    /// The caller does not own the stake.
    NotAuthorized,
    /// The stake has been cancelled before.
    AlreadyCancelled,
    /// The cancellation has been refunded.
    Cancelled,
    /// The refund delay has not passed.
    Locked,
    /// A bet to settle has no stake.
    NoMatchingBets,
    /// The caller is neither the owner nor an administrator.
    NotAdmin,
    /// The deposit is not exactly one unit.
    OneYocto,
    /// The staker has no earnings account.
    AccountMissing,
    /// The stake has no earnings record.
    EarningMissing,
    /// The accrued yield does not fit the balance type.
    YieldOverflow,
}

/// The state of the exchange.
pub struct Contract {
    pub owner_id: AccountId,
    pub persons: Vec<Person>,
    pub bets: Table<Bet>,
    pub stakes: Table<Stake>,
    pub cancelled_stakes: Table<CancelledStake>,
    pub accounts: Table<Account>,
    pub extra_storage_in_bytes_per_bet: u64,
    pub extra_storage_in_bytes_per_stake: u64,
    pub metadata: ContractMetadata,
    pub settings: Settings,
}

/// The model of a [`Contract`].
pub struct ContractView {
    pub owner_id: Seq<char>,
    pub persons: Seq<Seq<char>>,
    pub bets: Seq<(Seq<char>, BetView)>,
    pub stakes: StakeRows,
    pub cancelled_stakes: Seq<(Seq<char>, CancelledStakeView)>,
    pub accounts: Seq<(Seq<char>, AccountView)>,
    pub extra_storage_in_bytes_per_bet: u64,
    pub extra_storage_in_bytes_per_stake: u64,
    pub metadata: ContractMetadataView,
    pub settings: SettingsView,
}

impl View for Contract {
    type V = ContractView;

    open spec fn view(&self) -> ContractView {
        ContractView {
            owner_id: self.owner_id@,
            persons: texts(self.persons@),
            bets: self.bets@,
            stakes: self.stakes@,
            cancelled_stakes: self.cancelled_stakes@,
            accounts: self.accounts@,
            extra_storage_in_bytes_per_bet: self.extra_storage_in_bytes_per_bet,
            extra_storage_in_bytes_per_stake: self.extra_storage_in_bytes_per_stake,
            metadata: self.metadata@,
            settings: self.settings@,
        }
    }
}

/// What holds of the state at every moment, also while a stake that has
/// just been recorded still waits to be matched: identifiers are unique, no
/// stake has more unmatched than was staked, and on every bet as much is
/// matched on one side as on the other.
pub open spec fn state_sound(state: ContractView) -> bool {
    &&& state.persons.no_duplicates()
    &&& keys_unique(state.bets)
    &&& keys_unique(state.stakes)
    &&& keys_unique(state.cancelled_stakes)
    &&& keys_unique(state.accounts)
    &&& forall|a: int|
        0 <= a < state.accounts.len() ==> keys_unique((#[trigger] state.accounts[a]).1.earnings)
    &&& stakes_sound(state.stakes)
    &&& balanced(state.stakes)
}

/// The state between two operations: it is sound, and matching is up to
/// date, so that no two stakes that could be matched with each other both
/// have something left unmatched.
pub open spec fn state_wf(state: ContractView) -> bool {
    &&& state_sound(state)
    &&& settled(state.stakes)
}

/// The state in which the stake under `stake_id` is matched: it is sound,
/// and matching is up to date for every stake but, possibly, that one.
pub open spec fn awaiting_match(state: ContractView, stake_id: Seq<char>) -> bool {
    &&& state_sound(state)
    &&& has_key(state.stakes, stake_id) ==> settled_but(
        state.stakes,
        index_of(state.stakes, stake_id),
    )
}

impl Contract {
    /// The state is one that the operations keep; see [`state_wf`].
    pub open spec fn wf(&self) -> bool {
        state_wf(self@)
    }

    /// A new exchange, with no bets and no stakes.
    pub fn new(owner_id: AccountId, metadata: ContractMetadata, settings: Settings) -> (contract:
        Contract)
        ensures
            contract.wf(),
            contract@ == (ContractView {
                owner_id: owner_id@,
                persons: Seq::empty(),
                bets: Seq::empty(),
                stakes: Seq::empty(),
                cancelled_stakes: Seq::empty(),
                accounts: Seq::empty(),
                extra_storage_in_bytes_per_bet: 0,
                extra_storage_in_bytes_per_stake: 0,
                metadata: metadata@,
                settings: settings@,
            }),
    {
        let contract = Contract {
            owner_id,
            persons: Vec::new(),
            bets: Table::new(),
            stakes: Table::new(),
            cancelled_stakes: Table::new(),
            accounts: Table::new(),
            extra_storage_in_bytes_per_bet: 0,
            extra_storage_in_bytes_per_stake: 0,
            metadata,
            settings,
        };
        proof {
            assert(texts(contract.persons@) =~= Seq::<Seq<char>>::empty());
            crate::bet::matching::lemma_empty_balanced();
        }
        contract
    }

    /// What the exchange says about itself.
    pub fn metadata(&self) -> (metadata: &ContractMetadata)
        ensures
            *metadata == self.metadata,
    {
        &self.metadata
    }
}

} // verus!

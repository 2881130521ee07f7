//! What the validator says of itself over RPC.

use vstd::prelude::*;

use crate::net::option_text;
use crate::text::same_text;

verus! {

/// One answer of the validator.
#[derive(Clone, Copy, Debug, PartialEq, Eq, Structural)]
pub struct ValidatorSample {
    pub epoch: u64,
    pub network_slot: u64,
    pub my_last_vote: u64,
    /// How many slots the last vote is behind.
    pub vote_lag: i64,
    pub credits: u64,
    pub delinquent: bool,
    pub healthy: bool,
}

/// What came of one poll.
#[derive(Debug)]
pub enum Sample {
    Up(ValidatorSample),
    Down { reason: String },
}

/// One vote account of the cluster.
pub struct VoteAccount {
    pub pubkey: String,
    pub last_vote: u64,
    /// Of the current epoch.
    pub credits: u64,
    pub delinquent: bool,
}

/// The first account from `i` on with the given key.
pub open spec fn account_with(accounts: Seq<VoteAccount>, key: Seq<char>, i: int) -> Option<int>
    decreases accounts.len() - i,
{
    if 0 <= i < accounts.len() {
        if accounts[i].pubkey@ == key {
            Some(i)
        } else {
            account_with(accounts, key, i + 1)
        }
    } else {
        None
    }
}

/// The account that is followed: the one asked for, or where none was the only
/// one that there is.
pub open spec fn followed_account(accounts: Seq<VoteAccount>, vote: Option<Seq<char>>) -> Option<
    int,
> {
    match vote {
        Some(key) => account_with(accounts, key, 0),
        None => if accounts.len() == 1 {
            Some(0)
        } else {
            None
        },
    }
}

/// By how many slots a vote is behind, within 64 bits.
pub open spec fn lag_of(slot: u64, last_vote: u64) -> int {
    if slot - last_vote > i64::MAX {
        i64::MAX as int
    } else if slot - last_vote < i64::MIN {
        i64::MIN as int
    } else {
        slot - last_vote
    }
}

fn lag(slot: u64, last_vote: u64) -> (r: i64)
    ensures
        r == lag_of(slot, last_vote),
{
    let d: i128 = slot as i128 - last_vote as i128;
    if d > i64::MAX as i128 {
        i64::MAX
    } else if d < i64::MIN as i128 {
        i64::MIN
    } else {
        d as i64
    }
}

/// Finds the account that is followed.
pub fn find_account(accounts: &Vec<VoteAccount>, vote: &Option<String>) -> (r: Option<usize>)
    ensures
        (match r {
            Some(i) => Some(i as int),
            None => None,
        }) == followed_account(accounts@, option_text(*vote)),
        r matches Some(i) ==> i < accounts@.len(),
{
    match vote {
        None => if accounts.len() == 1 {
            Some(0)
        } else {
            None
        },
        Some(key) => {
            let mut i: usize = 0;
            while i < accounts.len()
                invariant
                    i <= accounts@.len(),
                    option_text(*vote) == Some(key@),
                    account_with(accounts@, key@, 0) == account_with(accounts@, key@, i as int),
                decreases accounts@.len() - i,
            {
                if same_text(accounts[i].pubkey.as_str(), key.as_str()) {
                    return Some(i);
                }
                i = i + 1;
            }
            None
        },
    }
}

/// Makes the sample of a poll out of what the validator answered. Without an
/// account to follow the validator counts as down.
pub fn sample_from(
    epoch: u64,
    network_slot: u64,
    accounts: &Vec<VoteAccount>,
    vote: &Option<String>,
    healthy: bool,
) -> (r: Sample)
    ensures
        match followed_account(accounts@, option_text(*vote)) {
            Some(i) => r == Sample::Up(
                ValidatorSample {
                    epoch,
                    network_slot,
                    my_last_vote: accounts@[i].last_vote,
                    vote_lag: lag_of(network_slot, accounts@[i].last_vote) as i64,
                    credits: accounts@[i].credits,
                    delinquent: accounts@[i].delinquent,
                    healthy,
                },
            ),
            None => r matches Sample::Down { reason } && reason@
                == "getVoteAccounts: vote account not found"@,
        },
{
    match find_account(accounts, vote) {
        Some(i) => Sample::Up(
            ValidatorSample {
                epoch,
                network_slot,
                my_last_vote: accounts[i].last_vote,
                vote_lag: lag(network_slot, accounts[i].last_vote),
                credits: accounts[i].credits,
                delinquent: accounts[i].delinquent,
                healthy,
            },
        ),
        None => Sample::Down { reason: "getVoteAccounts: vote account not found".to_string() },
    }
}

// ---- what holds of all polls ----

/// The account followed has the key asked for, and none before it has.
pub proof fn law_account_has_the_key(accounts: Seq<VoteAccount>, key: Seq<char>, i: int, at: int)
    requires
        0 <= i <= at < accounts.len(),
        accounts[at].pubkey@ == key,
        forall|k: int| i <= k < at ==> (#[trigger] accounts[k]).pubkey@ != key,
    ensures
        account_with(accounts, key, i) == Some(at),
        i == 0 ==> followed_account(accounts, Some(key)) == Some(at),
    decreases at - i,
{
    if i < at {
        law_account_has_the_key(accounts, key, i + 1, at);
    }
}

/// Without a key the only account is followed, and none where there are several.
pub proof fn law_only_account_is_followed(accounts: Seq<VoteAccount>)
    ensures
        followed_account(accounts, None) is Some <==> accounts.len() == 1,
        followed_account(accounts, None) matches Some(i) ==> i == 0,
{
}

/// The lag leads from the last vote to the slot.
pub proof fn law_lag_leads_to_the_slot(slot: u64, last_vote: u64)
    requires
        slot <= i64::MAX,
        last_vote <= i64::MAX,
    ensures
        last_vote + lag_of(slot, last_vote) == slot,
{
}

}

//! Validators and the changes to their stake.
//!
//! A list of validators is read as a map from consensus address to validator:
//! the first validator with an address is the one that the address names. The
//! lists keep their order, so that what is reported to the consensus engine
//! comes in the same order on every replica.

use vstd::prelude::*;
use crate::error::{viewed, TxError, TxErrorView};
use crate::field::{key_of_hex, AccountAddress, Address, PublicKey};
use crate::lookup::{first_index, lemma_first_index, lemma_first_index_is};

verus! {

/// The largest voting power that the consensus engine can be told of: its
/// powers are signed 64-bit numbers.
pub const MAX_VOTING_POWER: u64 = 0x7fff_ffff_ffff_ffff;

/// A validator: who it is to the consensus engine, which account owns its
/// stake, and how much its vote weighs.
#[derive(Clone, Copy, Debug, PartialEq, Eq, Structural)]
pub struct Validator {
    /// The address under which the consensus engine reports the validator.
    pub address: Address,
    /// The consensus public key.
    pub pub_key: PublicKey,
    /// The account that staked for the validator and receives its rewards.
    pub aleo_address: AccountAddress,
    /// The weight of the validator's vote.
    pub voting_power: u64,
}

/// A change of stake: credits staked for a validator (a positive amount) or
/// taken back from it (a negative one).
#[derive(Clone, Copy, Debug, PartialEq, Eq, Structural)]
pub struct Stake {
    /// The consensus address of the validator.
    pub address: Address,
    /// The consensus public key of the validator.
    pub pub_key: PublicKey,
    /// The account that stakes or unstakes.
    pub aleo_address: AccountAddress,
    /// The credits staked, negative when they are taken back.
    pub gates_delta: i64,
}

/// The bytes of the consensus address that belongs to the bytes of a public
/// key: what `consensus_address` returns. Bytes that are not the encoding of a
/// key have no address.
pub uninterp spec fn key_address(key: Seq<u8>) -> Option<Seq<u8>>;

/// The bytes of the consensus address of the validator with the public key
/// that `key` holds.
///
/// Calls `tendermint::PublicKey::from_raw_ed25519` on the bytes, and
/// `tendermint::account::Id::from` on the key that comes of it. The first
/// gives a key exactly if there are 32 bytes that are the encoding of a point
/// of the curve; the second hashes the bytes with SHA-256 and keeps the first
/// 20 bytes of the digest. The result depends on the bytes alone.
#[verifier::external_body]
fn consensus_address(key: &Vec<u8>) -> (address: Option<Vec<u8>>)
    ensures
        match address {
            Some(a) => key_address(key@) == Some(a@) && a@.len() == 20,
            None => key_address(key@) is None,
        },
{
    let parsed = tendermint::PublicKey::from_raw_ed25519(key.as_slice())?.ed25519()?;
    Some(tendermint::account::Id::from(parsed).as_bytes().to_vec())
}

/// The consensus address that belongs to a public key, if the key is the
/// encoding of one.
pub open spec fn address_of_key(key: PublicKey) -> Option<Address> {
    match key_address(key.le_bytes()) {
        Some(bytes) => Some(Address::of_le_bytes(bytes)),
        None => None,
    }
}

/// The consensus address that belongs to the public key `key`.
pub fn address_for(key: &PublicKey) -> (address: Option<Address>)
    ensures
        address == address_of_key(*key),
{
    let bytes = key.to_le_bytes();
    match consensus_address(&bytes) {
        Some(a) => Address::from_le_bytes(a.as_slice()),
        None => None,
    }
}

/// The vote of a validator on the previous block: its address and the power
/// that its vote had.
pub type Vote = (Address, u64);

/// The addresses of the validators, in their order.
pub open spec fn addresses(list: Seq<Validator>) -> Seq<Address> {
    list.map_values(|v: Validator| v.address)
}

/// The addresses of the voters, in their order.
pub open spec fn voters(votes: Seq<Vote>) -> Seq<Address> {
    votes.map_values(|v: Vote| v.0)
}

/// The place of the validator that `a` names; the length of `list` if there
/// is none.
pub open spec fn place_of(list: Seq<Validator>, a: Address) -> int {
    first_index(addresses(list), a)
}

/// The validator that `a` names.
pub open spec fn find(list: Seq<Validator>, a: Address) -> Option<Validator> {
    if place_of(list, a) < list.len() {
        Some(list[place_of(list, a)])
    } else {
        None
    }
}

/// The voting power of the validator that `a` names: none is no power.
pub open spec fn power_of(list: Seq<Validator>, a: Address) -> u64 {
    match find(list, a) {
        Some(v) => v.voting_power,
        None => 0,
    }
}

/// The list in which `v` stands for its address: in the place of the
/// validator that had the address, or at the end.
pub open spec fn upsert(list: Seq<Validator>, v: Validator) -> Seq<Validator> {
    if place_of(list, v.address) < list.len() {
        list.update(place_of(list, v.address), v)
    } else {
        list.push(v)
    }
}

/// The list without the validator that `a` names.
pub open spec fn without(list: Seq<Validator>, a: Address) -> Seq<Validator> {
    if place_of(list, a) < list.len() {
        list.remove(place_of(list, a))
    } else {
        list
    }
}

/// The list after each of `more` was put into it, first to last.
pub open spec fn upsert_all(list: Seq<Validator>, more: Seq<Validator>) -> Seq<Validator>
    decreases more.len(),
{
    if more.len() == 0 {
        list
    } else {
        upsert(upsert_all(list, more.drop_last()), more.last())
    }
}

/// The votes in which `vote` stands for its voter: in the place of the vote
/// that the voter had, or at the end.
pub open spec fn upsert_vote(votes: Seq<Vote>, vote: Vote) -> Seq<Vote> {
    if first_index(voters(votes), vote.0) < votes.len() {
        votes.update(first_index(voters(votes), vote.0), vote)
    } else {
        votes.push(vote)
    }
}

/// The votes after each of `more` was put into them, first to last: of
/// several votes of one voter the last one counts.
pub open spec fn upsert_votes(votes: Seq<Vote>, more: Seq<Vote>) -> Seq<Vote>
    decreases more.len(),
{
    if more.len() == 0 {
        votes
    } else {
        upsert_vote(upsert_votes(votes, more.drop_last()), more.last())
    }
}

/// Whether no address occurs twice among the validators.
pub open spec fn distinct(list: Seq<Validator>) -> bool {
    addresses(list).no_duplicates()
}

/// In a list without repeated addresses, a validator is found under its
/// address at its own place.
pub proof fn lemma_place_of_member(list: Seq<Validator>, i: int)
    requires
        distinct(list),
        0 <= i < list.len(),
    ensures
        place_of(list, list[i].address) == i,
        find(list, list[i].address) == Some(list[i]),
{
    let keys = addresses(list);
    assert(keys[i] == list[i].address);
    assert forall|k: int| 0 <= k < i implies keys[k] != list[i].address by {
        assert(keys[k] != keys[i]);
    }
    lemma_first_index_is(keys, list[i].address, i);
}

/// Putting a validator into a list keeps the addresses distinct, makes the
/// validator the one that its address names, and leaves every other address
/// with what it named.
pub proof fn lemma_upsert(list: Seq<Validator>, v: Validator, a: Address)
    requires
        distinct(list),
    ensures
        distinct(upsert(list, v)),
        find(upsert(list, v), a) == if a == v.address {
            Some(v)
        } else {
            find(list, a)
        },
{
    let keys = addresses(list);
    let after = upsert(list, v);
    let keys_after = addresses(after);
    let p = place_of(list, v.address);
    lemma_first_index(keys, v.address);
    lemma_first_index(keys, a);
    if p < list.len() {
        assert(keys_after =~= keys);
    } else {
        assert(keys_after =~= keys.push(v.address));
        assert forall|i: int, j: int|
            0 <= i < keys_after.len() && 0 <= j < keys_after.len() && i != j implies keys_after[i]
            != keys_after[j] by {
            if i < keys.len() && j < keys.len() {
                assert(keys[i] != keys[j]);
            } else if i < keys.len() {
                assert(keys[i] != v.address);
            } else {
                assert(keys[j] != v.address);
            }
        }
    }
    let q = first_index(keys, a);
    if a == v.address {
        lemma_first_index_is(keys_after, a, p);
    } else if q < keys.len() {
        assert(keys_after[q] == a);
        assert forall|k: int| 0 <= k < q implies keys_after[k] != a by {
            assert(keys[k] != a);
        }
        lemma_first_index_is(keys_after, a, q);
    } else {
        assert forall|k: int| 0 <= k < keys_after.len() implies keys_after[k] != a by {
            if k < keys.len() {
                assert(keys[k] != a);
            }
        }
        lemma_first_index_is(keys_after, a, keys_after.len() as int);
    }
}

/// Taking a validator out of a list keeps the addresses distinct, leaves its
/// address naming nobody, and leaves every other address with what it named.
pub proof fn lemma_without(list: Seq<Validator>, gone: Address, a: Address)
    requires
        distinct(list),
    ensures
        distinct(without(list, gone)),
        find(without(list, gone), a) == if a == gone {
            None
        } else {
            find(list, a)
        },
{
    let keys = addresses(list);
    let after = without(list, gone);
    let keys_after = addresses(after);
    let p = place_of(list, gone);
    lemma_first_index(keys, gone);
    lemma_first_index(keys, a);
    if p < list.len() {
        assert(keys_after =~= keys.remove(p));
        assert forall|i: int, j: int|
            0 <= i < keys_after.len() && 0 <= j < keys_after.len() && i != j implies keys_after[i]
            != keys_after[j] by {
            let ii = if i < p { i } else { i + 1 };
            let jj = if j < p { j } else { j + 1 };
            assert(keys[ii] != keys[jj]);
        }
        let q = first_index(keys, a);
        if a == gone {
            assert forall|k: int| 0 <= k < keys_after.len() implies keys_after[k] != a by {
                let kk = if k < p { k } else { k + 1 };
                assert(keys[kk] != keys[p]);
            }
            lemma_first_index_is(keys_after, a, keys_after.len() as int);
        } else if q < keys.len() {
            let q_after = if q < p { q } else { q - 1 };
            assert(keys_after[q_after] == a);
            assert forall|k: int| 0 <= k < q_after implies keys_after[k] != a by {
                let kk = if k < p { k } else { k + 1 };
                assert(keys[kk] != a);
            }
            lemma_first_index_is(keys_after, a, q_after);
            assert(after[q_after] == list[q]);
        } else {
            assert forall|k: int| 0 <= k < keys_after.len() implies keys_after[k] != a by {
                let kk = if k < p { k } else { k + 1 };
                assert(keys[kk] != a);
            }
            lemma_first_index_is(keys_after, a, keys_after.len() as int);
        }
    }
}

/// Putting validators into a list one after the other keeps the addresses
/// distinct.
pub proof fn lemma_upsert_all_distinct(list: Seq<Validator>, more: Seq<Validator>)
    requires
        distinct(list),
    ensures
        distinct(upsert_all(list, more)),
    decreases more.len(),
{
    if more.len() > 0 {
        lemma_upsert_all_distinct(list, more.drop_last());
        lemma_upsert(upsert_all(list, more.drop_last()), more.last(), more.last().address);
    }
}

/// Putting a vote into the votes keeps the voters distinct.
pub proof fn lemma_upsert_vote_distinct(votes: Seq<Vote>, vote: Vote)
    requires
        voters(votes).no_duplicates(),
    ensures
        voters(upsert_vote(votes, vote)).no_duplicates(),
{
    let keys = voters(votes);
    let keys_after = voters(upsert_vote(votes, vote));
    lemma_first_index(keys, vote.0);
    if first_index(keys, vote.0) < votes.len() {
        assert(keys_after =~= keys);
    } else {
        assert(keys_after =~= keys.push(vote.0));
        assert forall|i: int, j: int|
            0 <= i < keys_after.len() && 0 <= j < keys_after.len() && i != j implies keys_after[i]
            != keys_after[j] by {
            if i < keys.len() && j < keys.len() {
                assert(keys[i] != keys[j]);
            } else if i < keys.len() {
                assert(keys[i] != vote.0);
            } else {
                assert(keys[j] != vote.0);
            }
        }
    }
}

/// Putting votes into the votes one after the other keeps the voters
/// distinct.
pub proof fn lemma_upsert_votes_distinct(votes: Seq<Vote>, more: Seq<Vote>)
    requires
        voters(votes).no_duplicates(),
    ensures
        voters(upsert_votes(votes, more)).no_duplicates(),
    decreases more.len(),
{
    if more.len() > 0 {
        lemma_upsert_votes_distinct(votes, more.drop_last());
        lemma_upsert_vote_distinct(upsert_votes(votes, more.drop_last()), more.last());
    }
}

/// The place of the validator that `a` names, or the length of the list.
pub fn position(list: &Vec<Validator>, a: Address) -> (place: usize)
    ensures
        place == place_of(list@, a),
        place <= list.len(),
{
    let mut i: usize = 0;
    while i < list.len() && list[i].address != a
        invariant
            i <= list.len(),
            forall|k: int| 0 <= k < i ==> addresses(list@)[k] != a,
        decreases list.len() - i,
    {
        i += 1;
    }
    proof {
        lemma_first_index_is(addresses(list@), a, i as int);
    }
    i
}

/// Puts `v` into the list in the place of the validator that had its
/// address, or at the end.
pub fn put(list: &mut Vec<Validator>, v: Validator)
    ensures
        final(list)@ == upsert(old(list)@, v),
{
    let place = position(list, v.address);
    if place < list.len() {
        list[place] = v;
    } else {
        list.push(v);
    }
}

/// The place of the vote of the voter `a`, or the length of the votes.
pub fn vote_position(votes: &Vec<Vote>, a: Address) -> (place: usize)
    ensures
        place == first_index(voters(votes@), a),
        place <= votes.len(),
{
    let mut i: usize = 0;
    while i < votes.len() && votes[i].0 != a
        invariant
            i <= votes.len(),
            forall|k: int| 0 <= k < i ==> voters(votes@)[k] != a,
        decreases votes.len() - i,
    {
        i += 1;
    }
    proof {
        lemma_first_index_is(voters(votes@), a, i as int);
    }
    i
}

/// Puts `vote` into the votes in the place of the vote that its voter had,
/// or at the end.
pub fn put_vote(votes: &mut Vec<Vote>, vote: Vote)
    ensures
        final(votes)@ == upsert_vote(old(votes)@, vote),
{
    let place = vote_position(votes, vote.0);
    if place < votes.len() {
        votes[place] = vote;
    } else {
        votes.push(vote);
    }
}

/// The consensus address that belongs to the public key that `text` spells
/// in hexadecimal digits; none where it spells no key or the key has no
/// address.
pub open spec fn address_of_text(text: Seq<char>) -> Option<Address> {
    match key_of_hex(text) {
        Some(key) => address_of_key(key),
        None => None,
    }
}

/// The consensus address that belongs to the public key that `text` spells
/// in hexadecimal digits.
pub fn address_for_text(text: &str) -> (address: Option<Address>)
    ensures
        address == address_of_text(text@),
{
    match PublicKey::from_hex(text) {
        Some(key) => address_for(&key),
        None => None,
    }
}

/// The validator with the public key `key` under the consensus address
/// that belongs to the key; none where the key has no address.
pub open spec fn validator_at(
    address: Option<Address>,
    key: PublicKey,
    aleo_address: AccountAddress,
    voting_power: u64,
) -> Result<Validator, TxErrorView> {
    match address {
        Some(address) => Ok(Validator { address, pub_key: key, aleo_address, voting_power }),
        None => Err(TxErrorView::ValidatorKeyInvalid),
    }
}

/// The change of stake by `gates_delta` credits of the account
/// `aleo_address` for the validator with the public key `key` under the
/// consensus address `address`; none where the key or the address is
/// missing.
pub open spec fn stake_at(
    address: Option<Address>,
    key: Option<PublicKey>,
    aleo_address: AccountAddress,
    gates_delta: i64,
) -> Result<Stake, TxErrorView> {
    match (address, key) {
        (Some(address), Some(key)) => Ok(Stake { address, pub_key: key, aleo_address, gates_delta }),
        _ => Err(TxErrorView::ValidatorKeyInvalid),
    }
}

impl Validator {
    /// The validator with the public key `pub_key`, where `address` is the
    /// consensus address that belongs to the key. Fails if there is none.
    pub fn at(
        address: Option<Address>,
        pub_key: PublicKey,
        aleo_address: AccountAddress,
        voting_power: u64,
    ) -> (res: Result<Validator, TxError>)
        ensures
            viewed(res) == validator_at(address, pub_key, aleo_address, voting_power),
    {
        match address {
            Some(address) => Ok(Validator { address, pub_key, aleo_address, voting_power }),
            None => Err(TxError::ValidatorKeyInvalid),
        }
    }

    /// The validator with the public key `pub_key`, owned by `aleo_address`,
    /// with the power `voting_power`. Fails if `pub_key` is not the encoding
    /// of a key.
    pub fn new(pub_key: PublicKey, aleo_address: AccountAddress, voting_power: u64) -> (res: Result<
        Validator,
        TxError,
    >)
        ensures
            viewed(res) == validator_at(
                address_of_key(pub_key),
                pub_key,
                aleo_address,
                voting_power,
            ),
    {
        Validator::at(address_for(&pub_key), pub_key, aleo_address, voting_power)
    }
}

impl Stake {
    /// The change of stake by `gates_delta` credits of the account
    /// `aleo_address` for the validator with the public key `key`, where
    /// `address` is the consensus address that belongs to the key. Fails if
    /// the key or the address is missing.
    pub fn at(
        address: Option<Address>,
        key: Option<PublicKey>,
        aleo_address: AccountAddress,
        gates_delta: i64,
    ) -> (res: Result<Stake, TxError>)
        ensures
            viewed(res) == stake_at(address, key, aleo_address, gates_delta),
    {
        match (address, key) {
            (Some(address), Some(key)) => Ok(
                Stake { address, pub_key: key, aleo_address, gates_delta },
            ),
            _ => Err(TxError::ValidatorKeyInvalid),
        }
    }

    /// The change of stake by `gates_delta` credits of the account
    /// `aleo_address` for the validator whose public key `validator` spells
    /// in hexadecimal digits. Fails if `validator` does not spell a key.
    pub fn new(validator: &str, aleo_address: AccountAddress, gates_delta: i64) -> (res: Result<
        Stake,
        TxError,
    >)
        ensures
            viewed(res) == stake_at(
                address_of_text(validator@),
                key_of_hex(validator@),
                aleo_address,
                gates_delta,
            ),
    {
        Stake::at(
            address_for_text(validator),
            PublicKey::from_hex(validator),
            aleo_address,
            gates_delta,
        )
    }
}

} // verus!

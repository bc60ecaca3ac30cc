//! The mapping from accounts to their stake records.

use vstd::prelude::*;
use crate::amount::Amount;
use crate::ids::Address;

verus! {

/// What a stake record stands for.
pub struct StakeState {
    pub amount: nat,
    pub lock_until_epoch: nat,
}

/// The record of an account that never deposited.
pub open spec fn default_stake() -> StakeState {
    StakeState { amount: 0, lock_until_epoch: 0 }
}

/// The record of account `k` in `stakes`, the default one where it has none.
pub open spec fn stake_of(stakes: Map<Seq<u8>, StakeState>, k: Seq<u8>) -> StakeState {
    if stakes.contains_key(k) {
        stakes[k]
    } else {
        default_stake()
    }
}

/// The tokens that one account staked and the last epoch of their lock.
pub struct StakedTokens {
    pub amount: Amount,
    pub lock_until_epoch: u64,
}

impl View for StakedTokens {
    type V = StakeState;

    open spec fn view(&self) -> StakeState {
        StakeState { amount: self.amount@, lock_until_epoch: self.lock_until_epoch as nat }
    }
}

impl StakedTokens {
    /// A copy of this record.
    pub fn duplicate(&self) -> (r: StakedTokens)
        ensures
            r@ == self@,
    {
        StakedTokens { amount: self.amount.duplicate(), lock_until_epoch: self.lock_until_epoch }
    }
}

/// Stake records keyed by account; an absent account reads as the default
/// record.
pub struct StakingLedger {
    keys: Vec<Address>,
    records: Vec<StakedTokens>,
    stakes: Ghost<Map<Seq<u8>, StakeState>>,
}

impl View for StakingLedger {
    type V = Map<Seq<u8>, StakeState>;

    closed spec fn view(&self) -> Map<Seq<u8>, StakeState> {
        self.stakes@
    }
}

impl StakingLedger {
    /// Keys are unique, and the records stored are those of the view.
    pub closed spec fn wf(&self) -> bool {
        &&& self.keys@.len() == self.records@.len()
        &&& forall|i: int, j: int|
            0 <= i < j < self.keys@.len() ==> self.keys@[i]@ != self.keys@[j]@
        &&& forall|i: int|
            0 <= i < self.keys@.len() ==> #[trigger] self.stakes@.contains_key(self.keys@[i]@)
                && self.stakes@[self.keys@[i]@] == self.records@[i]@
        &&& forall|k: Seq<u8>|
            #[trigger] self.stakes@.contains_key(k) ==> exists|i: int|
                0 <= i < self.keys@.len() && self.keys@[i]@ == k
    }

    /// A ledger with no record.
    pub fn new() -> (r: StakingLedger)
        ensures
            r.wf(),
            r@ == Map::<Seq<u8>, StakeState>::empty(),
    {
        StakingLedger { keys: Vec::new(), records: Vec::new(), stakes: Ghost(Map::empty()) }
    }

    /// The position of `k` among the keys.
    fn find(&self, k: &Address) -> (r: Option<usize>)
        requires
            self.wf(),
        ensures
            r matches Some(i) ==> i < self.keys@.len() && self.keys@[i as int]@ == k@,
            r is None ==> !self@.contains_key(k@),
    {
        let mut i: usize = 0;
        while i < self.keys.len()
            invariant
                self.wf(),
                i <= self.keys@.len(),
                forall|j: int| 0 <= j < i ==> self.keys@[j]@ != k@,
            decreases self.keys@.len() - i,
        {
            if self.keys[i].same_as(k) {
                return Some(i);
            }
            i += 1;
        }
        None
    }

    /// The record of `k`, the default one where it has none.
    pub fn get_or_default(&self, k: &Address) -> (r: StakedTokens)
        requires
            self.wf(),
        ensures
            r@ == stake_of(self@, k@),
    {
        match self.find(k) {
            Some(i) => self.records[i].duplicate(),
            None => StakedTokens { amount: Amount::zero(), lock_until_epoch: 0 },
        }
    }

    /// Stores `rec` as the record of `k`, in place of any earlier one.
    pub fn set(&mut self, k: Address, rec: StakedTokens)
        requires
            old(self).wf(),
        ensures
            final(self).wf(),
            final(self)@ == old(self)@.insert(k@, rec@),
    {
        let ghost key = k@;
        let ghost val = rec@;
        match self.find(&k) {
            Some(i) => {
                self.records[i] = rec;
                self.stakes = Ghost(self.stakes@.insert(key, val));
                assert forall|j: int| 0 <= j < self.keys@.len() implies #[trigger]
                    self.stakes@.contains_key(self.keys@[j]@) && self.stakes@[self.keys@[j]@]
                    == self.records@[j]@ by {
                    if j != i {
                        assert(self.keys@[j]@ != key) by {
                            if j < i {
                                assert(self.keys@[j]@ != self.keys@[i as int]@);
                            } else {
                                assert(self.keys@[i as int]@ != self.keys@[j]@);
                            }
                        }
                        assert(old(self).stakes@.contains_key(old(self).keys@[j]@));
                        assert(self.records@[j] == old(self).records@[j]);
                    }
                }
                assert forall|k2: Seq<u8>| #[trigger] self.stakes@.contains_key(k2) implies exists|
                    j: int,
                | 0 <= j < self.keys@.len() && self.keys@[j]@ == k2 by {
                    if k2 == key {
                        assert(self.keys@[i as int]@ == k2);
                    } else {
                        assert(old(self).stakes@.contains_key(k2));
                        let j = choose|j: int|
                            0 <= j < old(self).keys@.len() && old(self).keys@[j]@ == k2;
                        assert(self.keys@[j]@ == k2);
                    }
                }
            },
            None => {
                let ghost n = self.keys@.len();
                self.keys.push(k);
                self.records.push(rec);
                self.stakes = Ghost(self.stakes@.insert(key, val));
                assert forall|j: int| 0 <= j < self.keys@.len() implies #[trigger]
                    self.stakes@.contains_key(self.keys@[j]@) && self.stakes@[self.keys@[j]@]
                    == self.records@[j]@ by {
                    if j < n {
                        assert(old(self).stakes@.contains_key(old(self).keys@[j]@));
                    }
                }
                assert forall|k2: Seq<u8>| #[trigger] self.stakes@.contains_key(k2) implies exists|
                    j: int,
                | 0 <= j < self.keys@.len() && self.keys@[j]@ == k2 by {
                    if k2 == key {
                        assert(self.keys@[n as int]@ == k2);
                    } else {
                        assert(old(self).stakes@.contains_key(k2));
                        let j = choose|j: int|
                            0 <= j < old(self).keys@.len() && old(self).keys@[j]@ == k2;
                        assert(self.keys@[j]@ == k2);
                    }
                }
            },
        }
    }
}

} // verus!

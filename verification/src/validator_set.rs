//! Validator set registry: the three ordered membership collections.
//!
//! An address appears in at most one of the active, pending-active and
//! pending-inactive collections at any time; transitions between them
//! are committed only at epoch boundaries.

use vstd::prelude::*;

verus! {

/// Consensus metadata of one validator, as published in the set.
pub struct ValidatorInfo {
    /// The validator owner's account address.
    pub account_address: u64,
    /// Key the validator signs consensus messages with, snapshotted at
    /// the last epoch boundary.
    pub consensus_public_key: Vec<u8>,
    /// The pool's active stake as of the last epoch boundary.
    pub voting_power: u64,
    /// Stable small integer identifying this validator within the
    /// current epoch's proposal bitmap.
    pub proposer_index: u64,
}

/// The global registry: three disjoint ordered collections.
pub struct ValidatorSet {
    /// Validators with voting power in the current epoch.
    pub active_validators: Vec<ValidatorInfo>,
    /// Validators queued to gain voting power at the next boundary.
    pub pending_active: Vec<ValidatorInfo>,
    /// Validators queued to lose voting power at the next boundary,
    /// still earning proposal credit for the current epoch.
    pub pending_inactive: Vec<ValidatorInfo>,
}

/// Whether some entry of `s` carries this address.
pub open spec fn contains_addr(s: Seq<ValidatorInfo>, addr: u64) -> bool {
    exists|i: int| 0 <= i < s.len() && (#[trigger] s[i]).account_address == addr
}

/// No two entries of `s` share an address.
pub open spec fn addrs_distinct(s: Seq<ValidatorInfo>) -> bool {
    forall|i: int, j: int|
        #![trigger s[i], s[j]]
        0 <= i < j < s.len() ==> s[i].account_address != s[j].account_address
}

/// No address occurs in both `a` and `b`.
pub open spec fn addrs_disjoint(a: Seq<ValidatorInfo>, b: Seq<ValidatorInfo>) -> bool {
    forall|i: int, j: int|
        #![trigger a[i], b[j]]
        0 <= i < a.len() && 0 <= j < b.len() ==> a[i].account_address != b[j].account_address
}

/// The position of the entry with this address; meaningful only when
/// `contains_addr` holds and addresses are distinct.
pub open spec fn index_of_addr(s: Seq<ValidatorInfo>, addr: u64) -> int {
    choose|i: int| 0 <= i < s.len() && (#[trigger] s[i]).account_address == addr
}

/// With distinct addresses, any position holding `addr` is the
/// position `index_of_addr` picks.
pub proof fn lemma_index_of_addr(s: Seq<ValidatorInfo>, addr: u64, i: int)
    requires
        addrs_distinct(s),
        0 <= i < s.len(),
        s[i].account_address == addr,
    ensures
        contains_addr(s, addr),
        index_of_addr(s, addr) == i,
{
    assert(contains_addr(s, addr));
    let j = index_of_addr(s, addr);
    assert(0 <= j < s.len() && s[j].account_address == addr);
    if i != j {
        assert(s[i].account_address != s[j].account_address);
    }
}

impl ValidatorSet {
    /// Membership exclusivity: within each collection addresses are
    /// unique, and no address sits in two collections at once.
    pub open spec fn membership_exclusive(self) -> bool {
        &&& addrs_distinct(self.active_validators@)
        &&& addrs_distinct(self.pending_active@)
        &&& addrs_distinct(self.pending_inactive@)
        &&& addrs_disjoint(self.active_validators@, self.pending_active@)
        &&& addrs_disjoint(self.active_validators@, self.pending_inactive@)
        &&& addrs_disjoint(self.pending_active@, self.pending_inactive@)
    }

    /// Whether `addr` sits in any of the three collections.
    pub open spec fn is_member(self, addr: u64) -> bool {
        contains_addr(self.active_validators@, addr)
            || contains_addr(self.pending_active@, addr)
            || contains_addr(self.pending_inactive@, addr)
    }

    /// An empty registry.
    pub fn new() -> (vs: ValidatorSet)
        ensures
            vs.active_validators@ == Seq::<ValidatorInfo>::empty(),
            vs.pending_active@ == Seq::<ValidatorInfo>::empty(),
            vs.pending_inactive@ == Seq::<ValidatorInfo>::empty(),
            vs.membership_exclusive(),
    {
        ValidatorSet {
            active_validators: Vec::new(),
            pending_active: Vec::new(),
            pending_inactive: Vec::new(),
        }
    }
}

/// The position of the entry carrying `addr`, if any.
pub fn position_of_addr(s: &Vec<ValidatorInfo>, addr: u64) -> (r: Option<usize>)
    ensures
        match r {
            Some(i) => i < s@.len() && s@[i as int].account_address == addr
                && (forall|j: int| 0 <= j < i ==> (#[trigger] s@[j]).account_address != addr),
            None => !contains_addr(s@, addr),
        },
{
    let n = s.len();
    let mut i: usize = 0;
    while i < n
        invariant
            n == s@.len(),
            i <= n,
            forall|j: int| 0 <= j < i ==> (#[trigger] s@[j]).account_address != addr,
        decreases n - i,
    {
        if s[i].account_address == addr {
            return Some(i);
        }
        i = i + 1;
    }
    None
}

/// Whether any entry carries `addr`.
pub fn contains_addr_exec(s: &Vec<ValidatorInfo>, addr: u64) -> (r: bool)
    ensures
        r == contains_addr(s@, addr),
{
    position_of_addr(s, addr).is_some()
}

/// The position of the entry with this proposer index, if any; the
/// first match is taken.
pub fn position_of_index(s: &Vec<ValidatorInfo>, proposer_index: u64) -> (r: Option<usize>)
    ensures
        match r {
            Some(i) => i < s@.len() && s@[i as int].proposer_index == proposer_index
                && (forall|j: int|
                    0 <= j < i ==> (#[trigger] s@[j]).proposer_index != proposer_index),
            None => forall|j: int|
                0 <= j < s@.len() ==> (#[trigger] s@[j]).proposer_index != proposer_index,
        },
{
    let n = s.len();
    let mut i: usize = 0;
    while i < n
        invariant
            n == s@.len(),
            i <= n,
            forall|j: int| 0 <= j < i ==> (#[trigger] s@[j]).proposer_index != proposer_index,
        decreases n - i,
    {
        if s[i].proposer_index == proposer_index {
            return Some(i);
        }
        i = i + 1;
    }
    None
}

} // verus!

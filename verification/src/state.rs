//! The persisted ledger of one lottery round.

use vstd::prelude::*;

verus! {

/// Lifecycle stage of a round.
///
/// The order of the variants fixes the one-byte tag each stage is stored
/// under, so it must not change.
#[derive(Clone, Copy, Debug, PartialEq, Eq, Structural)]
pub enum LotteryState {
    BetsClosed,
    InProgress,
    Launched,
    Completed,
}

/// A 32-byte participant identity, held as four little-endian 64-bit words.
///
/// The all-zero value is the sentinel: it marks "no winner" and, in the
/// stored byte image, the end of the logically used participant table.
#[derive(Clone, Copy, Debug, PartialEq, Eq, Structural)]
pub struct Pubkey {
    pub w0: u64,
    pub w1: u64,
    pub w2: u64,
    pub w3: u64,
}

/// The all-zero sentinel identity.
pub open spec fn sentinel() -> Pubkey {
    Pubkey { w0: 0, w1: 0, w2: 0, w3: 0 }
}

impl Pubkey {
    /// The sentinel identity, meaning "no winner" / "empty slot".
    pub fn none() -> (k: Pubkey)
        ensures
            k == sentinel(),
    {
        Pubkey { w0: 0, w1: 0, w2: 0, w3: 0 }
    }
}

/// One entry of the participant table: an identity and what it contributed.
#[derive(Clone, Copy, Debug, PartialEq, Eq, Structural)]
pub struct Participant {
    pub key: Pubkey,
    pub amount: u64,
}

/// The ledger of one round, as decoded from its byte image.
pub struct LotteryAccount {
    /// Maximum number of distinct participant identities this round admits.
    pub max_participants: u32,
    /// Current lifecycle stage.
    pub lottery_state: LotteryState,
    /// Selected winner, or the sentinel while none is selected.
    pub winner: Pubkey,
    /// Round start timestamp.
    pub lottery_start: u64,
    /// Contributions recorded so far; keys are unique and never the sentinel.
    pub participants: Vec<Participant>,
}

/// Whether `s` holds an entry for identity `k`.
pub open spec fn has_key(s: Seq<Participant>, k: Pubkey) -> bool {
    exists|i: int| 0 <= i < s.len() && s[i].key == k
}

/// Index of the entry for identity `k` in `s`.
pub open spec fn key_index(s: Seq<Participant>, k: Pubkey) -> int {
    choose|i: int| 0 <= i < s.len() && s[i].key == k
}

/// No two entries of `s` share an identity.
pub open spec fn keys_unique(s: Seq<Participant>) -> bool {
    forall|i: int, j: int|
        0 <= i < j < s.len() ==> #[trigger] s[i].key != #[trigger] s[j].key
}

/// No entry of `s` carries the sentinel identity.
pub open spec fn no_sentinel_key(s: Seq<Participant>) -> bool {
    forall|i: int| 0 <= i < s.len() ==> #[trigger] s[i].key != sentinel()
}

/// Sum of all recorded contributions.
pub open spec fn total_donations(s: Seq<Participant>) -> int
    decreases s.len(),
{
    if s.len() == 0 {
        0
    } else {
        total_donations(s.drop_last()) + s.last().amount
    }
}

/// An entry found at some index is the entry [`key_index`] denotes, as long
/// as identities are unique.
pub proof fn lemma_key_index_of(s: Seq<Participant>, k: Pubkey, j: int)
    requires
        keys_unique(s),
        0 <= j < s.len(),
        s[j].key == k,
    ensures
        has_key(s, k),
        key_index(s, k) == j,
{
    assert(has_key(s, k));
    let i = key_index(s, k);
    assert(0 <= i < s.len() && s[i].key == k);
}

/// The recorded total never shrinks as the table grows.
pub proof fn lemma_total_donations_prefix(s: Seq<Participant>, j: int)
    requires
        0 <= j <= s.len(),
    ensures
        total_donations(s.take(j)) <= total_donations(s),
    decreases s.len() - j,
{
    if j < s.len() {
        lemma_total_donations_prefix(s, j + 1);
        assert(s.take(j + 1).drop_last() =~= s.take(j));
        assert(s.take(j + 1).last() == s[j]);
    } else {
        assert(s.take(j) =~= s);
    }
}

/// Mathematical image of a [`LotteryAccount`]: the same fields, with the
/// participant table as a sequence.  Contracts speak of this type.
pub ghost struct LedgerV {
    pub max_participants: u32,
    pub lottery_state: LotteryState,
    pub winner: Pubkey,
    pub lottery_start: u64,
    pub participants: Seq<Participant>,
}

impl LedgerV {
    /// Well-formedness of a ledger: the participant table holds at most
    /// `max_participants` entries, with unique, non-sentinel identities.
    pub open spec fn wf(self) -> bool {
        &&& self.participants.len() <= self.max_participants
        &&& keys_unique(self.participants)
        &&& no_sentinel_key(self.participants)
    }
}

impl View for LotteryAccount {
    type V = LedgerV;

    open spec fn view(&self) -> LedgerV {
        LedgerV {
            max_participants: self.max_participants,
            lottery_state: self.lottery_state,
            winner: self.winner,
            lottery_start: self.lottery_start,
            participants: self.participants@,
        }
    }
}

impl LotteryAccount {
    /// Well-formedness of the decoded ledger value.
    pub open spec fn wf(self) -> bool {
        self@.wf()
    }
}

} // verus!

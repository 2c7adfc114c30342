//! Byte image of the ledger.
//!
//! The stored form is a fixed 45-byte header — capacity (u32 LE), state tag
//! (one byte), winner identity (32 bytes, all zero meaning "none"), start
//! time (u64 LE) — then a u32 LE count of used participant entries, then one
//! 40-byte slot per admissible participant: 32 identity bytes and a u64 LE
//! amount.  The region is allocated once, for `max_participants` slots, so
//! unused trailing slots are physically present; the first slot whose
//! identity bytes are all zero ends the logically used table.

use vstd::prelude::*;
use vstd::bytes::*;
use vstd::slice::*;
use crate::error::LotteryError;
use crate::state::{LedgerV, LotteryAccount, LotteryState, Participant, Pubkey, keys_unique,
    no_sentinel_key, sentinel};

verus! {

broadcast use vstd::seq_lib::group_seq_properties;

/// Length in bytes of the fixed header, including the entry count.
pub open spec fn header_len() -> int {
    49
}

/// Length in bytes of one participant slot.
pub open spec fn slot_len() -> int {
    40
}

/// The 32-byte image of an identity: its four words, each little-endian.
pub open spec fn pubkey_to_bytes(k: Pubkey) -> Seq<u8> {
    spec_u64_to_le_bytes(k.w0) + spec_u64_to_le_bytes(k.w1) + spec_u64_to_le_bytes(k.w2)
        + spec_u64_to_le_bytes(k.w3)
}

/// The identity read back from 32 bytes.
pub open spec fn pubkey_from_bytes(s: Seq<u8>) -> Pubkey
    recommends
        s.len() == 32,
{
    Pubkey {
        w0: spec_u64_from_le_bytes(s.subrange(0, 8)),
        w1: spec_u64_from_le_bytes(s.subrange(8, 16)),
        w2: spec_u64_from_le_bytes(s.subrange(16, 24)),
        w3: spec_u64_from_le_bytes(s.subrange(24, 32)),
    }
}

pub proof fn lemma_pubkey_bytes_len(k: Pubkey)
    ensures
        pubkey_to_bytes(k).len() == 32,
{
    lemma_auto_spec_u64_to_from_le_bytes();
}

/// Reading back what was written yields the identity that was written.
pub proof fn lemma_pubkey_round_trip(k: Pubkey)
    ensures
        pubkey_to_bytes(k).len() == 32,
        pubkey_from_bytes(pubkey_to_bytes(k)) == k,
{
    lemma_auto_spec_u64_to_from_le_bytes();
    let b = pubkey_to_bytes(k);
    assert(b.subrange(0, 8) =~= spec_u64_to_le_bytes(k.w0));
    assert(b.subrange(8, 16) =~= spec_u64_to_le_bytes(k.w1));
    assert(b.subrange(16, 24) =~= spec_u64_to_le_bytes(k.w2));
    assert(b.subrange(24, 32) =~= spec_u64_to_le_bytes(k.w3));
}

/// The u64 word zero is stored as 8 zero bytes.
pub proof fn lemma_u64_zero_bytes()
    ensures
        spec_u64_to_le_bytes(0u64) =~= Seq::new(8, |i: int| 0u8),
        spec_u64_from_le_bytes(Seq::new(8, |i: int| 0u8)) == 0u64,
{
    spec_u64_to_le_bytes_to_open(0u64);
    assert((0u64 & 0xff) == 0 && ((0u64 >> 8) & 0xff) == 0 && ((0u64 >> 16) & 0xff) == 0 && ((
    0u64 >> 24) & 0xff) == 0 && ((0u64 >> 32) & 0xff) == 0 && ((0u64 >> 40) & 0xff) == 0 && ((
    0u64 >> 48) & 0xff) == 0 && ((0u64 >> 56) & 0xff) == 0) by (bit_vector);
    assert(spec_u64_to_le_bytes(0u64) =~= Seq::new(8, |i: int| 0u8));
    lemma_auto_spec_u64_to_from_le_bytes();
}

/// One-byte tag a lifecycle stage is stored under.
pub open spec fn state_tag(s: LotteryState) -> u8 {
    match s {
        LotteryState::BetsClosed => 0,
        LotteryState::InProgress => 1,
        LotteryState::Launched => 2,
        LotteryState::Completed => 3,
    }
}

/// The stage a stored tag byte denotes, if any.
pub open spec fn tag_state(t: u8) -> Option<LotteryState> {
    if t == 0 {
        Some(LotteryState::BetsClosed)
    } else if t == 1 {
        Some(LotteryState::InProgress)
    } else if t == 2 {
        Some(LotteryState::Launched)
    } else if t == 3 {
        Some(LotteryState::Completed)
    } else {
        None
    }
}

/// The 40-byte image of one participant entry.
pub open spec fn entry_bytes(p: Participant) -> Seq<u8> {
    pubkey_to_bytes(p.key) + spec_u64_to_le_bytes(p.amount)
}

/// The image of the used prefix of the participant table.
pub open spec fn table_bytes(s: Seq<Participant>) -> Seq<u8>
    decreases s.len(),
{
    if s.len() == 0 {
        Seq::empty()
    } else {
        table_bytes(s.drop_last()) + entry_bytes(s.last())
    }
}

/// `n` zero bytes.
pub open spec fn zero_bytes(n: nat) -> Seq<u8> {
    Seq::new(n, |i: int| 0u8)
}

/// The header: capacity, state tag, winner, start time, entry count.
pub open spec fn header_bytes(l: LedgerV) -> Seq<u8> {
    spec_u32_to_le_bytes(l.max_participants) + seq![state_tag(l.lottery_state)]
        + pubkey_to_bytes(l.winner) + spec_u64_to_le_bytes(l.lottery_start)
        + spec_u32_to_le_bytes(l.participants.len() as u32)
}

/// The full byte image of a ledger: header, used entries, zeroed free slots.
pub open spec fn encode_spec(l: LedgerV) -> Seq<u8>
    recommends
        l.participants.len() <= l.max_participants,
{
    header_bytes(l) + table_bytes(l.participants)
        + zero_bytes((slot_len() * (l.max_participants - l.participants.len())) as nat)
}

pub proof fn lemma_entry_bytes_len(p: Participant)
    ensures
        entry_bytes(p).len() == 40,
{
    lemma_pubkey_bytes_len(p.key);
    lemma_auto_spec_u64_to_from_le_bytes();
}

pub proof fn lemma_table_bytes_len(s: Seq<Participant>)
    ensures
        table_bytes(s).len() == 40 * s.len(),
    decreases s.len(),
{
    if s.len() > 0 {
        lemma_table_bytes_len(s.drop_last());
        lemma_entry_bytes_len(s.last());
    }
}

pub proof fn lemma_header_bytes_len(l: LedgerV)
    ensures
        header_bytes(l).len() == 49,
{
    lemma_auto_spec_u32_to_from_le_bytes();
    lemma_auto_spec_u64_to_from_le_bytes();
    lemma_pubkey_bytes_len(l.winner);
}

/// Every 40-byte window of the table image at an entry boundary is the image
/// of the entry there.
pub proof fn lemma_table_bytes_index(s: Seq<Participant>, j: int)
    requires
        0 <= j < s.len(),
    ensures
        table_bytes(s).len() == 40 * s.len(),
        table_bytes(s).subrange(40 * j, 40 * j + 40) =~= entry_bytes(s[j]),
    decreases s.len(),
{
    lemma_table_bytes_len(s);
    lemma_table_bytes_len(s.drop_last());
    lemma_entry_bytes_len(s.last());
    if j == s.len() - 1 {
        assert(table_bytes(s).subrange(40 * j, 40 * j + 40) =~= entry_bytes(s.last()));
    } else {
        lemma_table_bytes_index(s.drop_last(), j);
        assert(table_bytes(s).subrange(40 * j, 40 * j + 40) =~= table_bytes(
            s.drop_last(),
        ).subrange(40 * j, 40 * j + 40));
    }
}

/// Number of whole 40-byte slots physically present after the header.
pub open spec fn avail_slots(b: Seq<u8>) -> int {
    (b.len() - header_len()) / slot_len()
}

/// The participant entry stored in slot `j`.
pub open spec fn entry_at(b: Seq<u8>, j: int) -> Participant {
    Participant {
        key: pubkey_from_bytes(b.subrange(49 + 40 * j, 49 + 40 * j + 32)),
        amount: spec_u64_from_le_bytes(b.subrange(49 + 40 * j + 32, 49 + 40 * j + 40)),
    }
}

/// First slot index at or after `j` whose identity is the sentinel, or the
/// number of physical slots when no such slot exists.
pub open spec fn scan_from(b: Seq<u8>, j: int) -> int
    decreases avail_slots(b) - j,
{
    if j < 0 || j >= avail_slots(b) {
        j
    } else if entry_at(b, j).key == sentinel() {
        j
    } else {
        scan_from(b, j + 1)
    }
}

/// Number of logically used slots: everything before the first sentinel.
pub open spec fn used_slots(b: Seq<u8>) -> int {
    scan_from(b, 0)
}

/// The used entries, in slot order.
pub open spec fn entries_of(b: Seq<u8>) -> Seq<Participant> {
    Seq::new(used_slots(b) as nat, |j: int| entry_at(b, j))
}

/// What a byte buffer holds, if it holds a well-formed ledger image: the
/// header fields, then as many leading non-sentinel entries as the recorded
/// entry count, with unique identities, within the recorded capacity.
pub open spec fn decode_spec(b: Seq<u8>) -> Option<LedgerV> {
    if b.len() < 49 {
        None
    } else {
        match tag_state(b[4]) {
            None => None,
            Some(st) => {
                let cap = spec_u32_from_le_bytes(b.subrange(0, 4));
                let used = used_slots(b);
                let parts = entries_of(b);
                if used <= cap && spec_u32_from_le_bytes(b.subrange(45, 49)) == used
                    && keys_unique(parts) {
                    Some(
                        LedgerV {
                            max_participants: cap,
                            lottery_state: st,
                            winner: pubkey_from_bytes(b.subrange(5, 37)),
                            lottery_start: spec_u64_from_le_bytes(b.subrange(37, 45)),
                            participants: parts,
                        },
                    )
                } else {
                    None
                }
            },
        }
    }
}

/// Characterization of the scan: its result is the slot count `u` exactly
/// when the slots before `u` are all used and slot `u`, if physically
/// present, starts with the sentinel.
pub proof fn lemma_scan_from_is(b: Seq<u8>, j: int, u: int)
    requires
        0 <= j <= u <= avail_slots(b),
        forall|i: int| j <= i < u ==> #[trigger] entry_at(b, i).key != sentinel(),
        u < avail_slots(b) ==> entry_at(b, u).key == sentinel(),
    ensures
        scan_from(b, j) == u,
    decreases u - j,
{
    if j < u {
        lemma_scan_from_is(b, j + 1, u);
    }
}

/// Decoding inverts encoding: every well-formed ledger comes back intact
/// from its own byte image.  Together with the contracts of [`serialize`]
/// and [`deserialize`] this also says that re-encoding a decoded buffer of
/// encoded form reproduces that buffer byte for byte.
pub proof fn lemma_encode_decode(l: LedgerV)
    requires
        l.wf(),
    ensures
        encode_spec(l).len() == 49 + 40 * (l.max_participants as int),
        decode_spec(encode_spec(l)) == Some(l),
{
    let e = encode_spec(l);
    let parts = l.participants;
    let n = parts.len() as int;
    let cap = l.max_participants as int;
    lemma_header_bytes_len(l);
    lemma_table_bytes_len(parts);
    lemma_auto_spec_u32_to_from_le_bytes();
    lemma_auto_spec_u64_to_from_le_bytes();
    lemma_pubkey_bytes_len(l.winner);
    assert(e.len() == 49 + 40 * cap);
    assert(avail_slots(e) == cap) by {
        assert((40 * cap) / 40 == cap) by (nonlinear_arith);
    }
    assert(e.subrange(0, 4) =~= spec_u32_to_le_bytes(l.max_participants));
    assert(e[4] == state_tag(l.lottery_state));
    assert(e.subrange(5, 37) =~= pubkey_to_bytes(l.winner));
    assert(e.subrange(37, 45) =~= spec_u64_to_le_bytes(l.lottery_start));
    assert(e.subrange(45, 49) =~= spec_u32_to_le_bytes(parts.len() as u32));
    lemma_pubkey_round_trip(l.winner);
    assert forall|j: int| 0 <= j < n implies entry_at(e, j) == parts[j] by {
        lemma_table_bytes_index(parts, j);
        lemma_entry_bytes_len(parts[j]);
        lemma_pubkey_bytes_len(parts[j].key);
        let eb = entry_bytes(parts[j]);
        let t = table_bytes(parts);
        assert forall|i: int| 0 <= i < 40 implies e[49 + 40 * j + i] == eb[i] by {
            assert(t.subrange(40 * j, 40 * j + 40)[i] == t[40 * j + i]);
            assert(e[49 + 40 * j + i] == t[40 * j + i]);
        }
        assert(e.subrange(49 + 40 * j, 49 + 40 * j + 32) =~= eb.subrange(0, 32));
        assert(eb.subrange(0, 32) =~= pubkey_to_bytes(parts[j].key));
        lemma_pubkey_round_trip(parts[j].key);
        assert(e.subrange(49 + 40 * j + 32, 49 + 40 * j + 40) =~= eb.subrange(32, 40));
        assert(eb.subrange(32, 40) =~= spec_u64_to_le_bytes(parts[j].amount));
    }
    if n < cap {
        lemma_u64_zero_bytes();
        let zz = Seq::new(32, |i: int| 0u8);
        assert(e.subrange(49 + 40 * n, 49 + 40 * n + 32) =~= zz);
        assert(zz.subrange(0, 8) =~= Seq::new(8, |i: int| 0u8));
        assert(zz.subrange(8, 16) =~= Seq::new(8, |i: int| 0u8));
        assert(zz.subrange(16, 24) =~= Seq::new(8, |i: int| 0u8));
        assert(zz.subrange(24, 32) =~= Seq::new(8, |i: int| 0u8));
        assert(entry_at(e, n).key == sentinel());
    }
    lemma_scan_from_is(e, 0, n);
    assert(entries_of(e) =~= parts);
    assert(decode_spec(e) == Some(l));
}

/// Any buffer that encoding produced decodes to the ledger it encoded, and
/// re-encoding that ledger reproduces the buffer byte for byte.
pub proof fn lemma_encode_of_decode(b: Seq<u8>, l: LedgerV)
    requires
        l.wf(),
        b == encode_spec(l),
    ensures
        decode_spec(b) == Some(l),
        encode_spec(decode_spec(b).unwrap()) == b,
{
    lemma_encode_decode(l);
}

fn read_pubkey(s: &[u8], off: usize) -> (k: Pubkey)
    requires
        off + 32 <= s@.len(),
    ensures
        k == pubkey_from_bytes(s@.subrange(off as int, off as int + 32)),
{
    let slen: usize = s.len();
    let w0 = u64_from_le_bytes(slice_subrange(s, off, off + 8));
    let w1 = u64_from_le_bytes(slice_subrange(s, off + 8, off + 16));
    let w2 = u64_from_le_bytes(slice_subrange(s, off + 16, off + 24));
    let w3 = u64_from_le_bytes(slice_subrange(s, off + 24, off + 32));
    proof {
        let o = off as int;
        let w = s@.subrange(o, o + 32);
        assert(w.subrange(0, 8) =~= s@.subrange(o, o + 8));
        assert(w.subrange(8, 16) =~= s@.subrange(o + 8, o + 16));
        assert(w.subrange(16, 24) =~= s@.subrange(o + 16, o + 24));
        assert(w.subrange(24, 32) =~= s@.subrange(o + 24, o + 32));
    }
    Pubkey { w0, w1, w2, w3 }
}

fn write_pubkey(out: &mut Vec<u8>, k: &Pubkey)
    ensures
        final(out)@ =~= old(out)@ + pubkey_to_bytes(*k),
{
    let mut b0 = u64_to_le_bytes(k.w0);
    out.append(&mut b0);
    let mut b1 = u64_to_le_bytes(k.w1);
    out.append(&mut b1);
    let mut b2 = u64_to_le_bytes(k.w2);
    out.append(&mut b2);
    let mut b3 = u64_to_le_bytes(k.w3);
    out.append(&mut b3);
}

fn state_tag_byte(s: LotteryState) -> (t: u8)
    ensures
        t == state_tag(s),
{
    match s {
        LotteryState::BetsClosed => 0,
        LotteryState::InProgress => 1,
        LotteryState::Launched => 2,
        LotteryState::Completed => 3,
    }
}

/// Encodes the ledger into a fresh buffer of `49 + 40 * max_participants`
/// bytes.  Never truncates: a table larger than the capacity is refused.
pub fn serialize(account: &LotteryAccount) -> (r: Result<Vec<u8>, LotteryError>)
    ensures
        match r {
            Ok(v) => account.participants@.len() <= account.max_participants && v@ == encode_spec(
                account@,
            ) && v@.len() == 49 + 40 * (account.max_participants as int),
            Err(e) => e == LotteryError::CapacityExceeded && account.participants@.len()
                > account.max_participants,
        },
{
    if account.participants.len() as u64 > account.max_participants as u64 {
        return Err(LotteryError::CapacityExceeded);
    }
    let ghost lv = account@;
    let mut out: Vec<u8> = Vec::new();
    let mut cap_b = u32_to_le_bytes(account.max_participants);
    out.append(&mut cap_b);
    out.push(state_tag_byte(account.lottery_state));
    write_pubkey(&mut out, &account.winner);
    let mut start_b = u64_to_le_bytes(account.lottery_start);
    out.append(&mut start_b);
    let mut count_b = u32_to_le_bytes(account.participants.len() as u32);
    out.append(&mut count_b);
    proof {
        lemma_header_bytes_len(lv);
        assert(out@ =~= header_bytes(lv));
    }
    let n: usize = account.participants.len();
    let mut i: usize = 0;
    while i < n
        invariant
            i <= n,
            n == lv.participants.len(),
            account@ == lv,
            account.participants@ == lv.participants,
            out@ == header_bytes(lv) + table_bytes(lv.participants.take(i as int)),
        decreases n - i,
    {
        let p = account.participants[i];
        write_pubkey(&mut out, &p.key);
        let mut amount_b = u64_to_le_bytes(p.amount);
        out.append(&mut amount_b);
        proof {
            assert(lv.participants.take(i + 1).drop_last() =~= lv.participants.take(i as int));
            assert(lv.participants.take(i + 1).last() == p);
            assert(out@ =~= header_bytes(lv) + table_bytes(lv.participants.take(i + 1)));
        }
        i = i + 1;
    }
    proof {
        assert(lv.participants.take(n as int) =~= lv.participants);
        lemma_header_bytes_len(lv);
        lemma_table_bytes_len(lv.participants);
    }
    let total: u64 = 49 + 40 * (account.max_participants as u64);
    while (out.len() as u64) < total
        invariant
            out@.len() >= 49 + 40 * lv.participants.len(),
            out@.len() <= total,
            total == 49 + 40 * (lv.max_participants as int),
            out@ == header_bytes(lv) + table_bytes(lv.participants) + zero_bytes(
                (out@.len() - 49 - 40 * lv.participants.len()) as nat,
            ),
        decreases total - out@.len(),
    {
        out.push(0u8);
        proof {
            let tail = (out@.len() - 49 - 40 * lv.participants.len()) as nat;
            assert(out@ =~= header_bytes(lv) + table_bytes(lv.participants) + zero_bytes(tail));
        }
    }
    proof {
        assert(out@ =~= encode_spec(lv));
    }
    Ok(out)
}

/// Decodes a stored buffer.  Truncated or malformed input — an unknown state
/// tag, an entry count that does not match the scanned table, duplicate
/// identities, or more used slots than the recorded capacity — is refused.
pub fn deserialize(input: &[u8]) -> (r: Result<LotteryAccount, LotteryError>)
    ensures
        match r {
            Ok(acc) => decode_spec(input@) == Some(acc@) && acc.wf(),
            Err(e) => e == LotteryError::InvalidEncoding && decode_spec(input@) is None,
        },
{
    if input.len() < 49 {
        return Err(LotteryError::InvalidEncoding);
    }
    let tag = *slice_index_get(input, 4);
    let lottery_state = match tag {
        0 => LotteryState::BetsClosed,
        1 => LotteryState::InProgress,
        2 => LotteryState::Launched,
        3 => LotteryState::Completed,
        _ => { return Err(LotteryError::InvalidEncoding) },
    };
    let max_participants = u32_from_le_bytes(slice_subrange(input, 0, 4));
    let winner = read_pubkey(input, 5);
    let lottery_start = u64_from_le_bytes(slice_subrange(input, 37, 45));
    let count = u32_from_le_bytes(slice_subrange(input, 45, 49));
    let ilen: usize = input.len();
    let slots: usize = (ilen - 49) / 40;
    let sentinel_key = Pubkey::none();
    let mut participants: Vec<Participant> = Vec::new();
    let mut j: usize = 0;
    let mut done = false;
    proof {
        assert(slots == avail_slots(input@));
        assert(49 + 40 * (slots as int) <= input@.len());
    }
    while j < slots && !done
        invariant
            j <= slots,
            slots == avail_slots(input@),
            49 + 40 * (slots as int) <= input@.len(),
            ilen == input@.len(),
            sentinel_key == sentinel(),
            participants@ == Seq::new(j as nat, |i: int| entry_at(input@, i)),
            forall|i: int| 0 <= i < j ==> #[trigger] entry_at(input@, i).key != sentinel(),
            done ==> j < slots && entry_at(input@, j as int).key == sentinel(),
        decreases 2 * (slots - j) + (if done { 0int } else { 1int }),
    {
        let off = 49 + 40 * j;
        let key = read_pubkey(input, off);
        if key == sentinel_key {
            done = true;
        } else {
            let amount = u64_from_le_bytes(slice_subrange(input, off + 32, off + 40));
            participants.push(Participant { key, amount });
            proof {
                assert(participants@ =~= Seq::new((j + 1) as nat, |i: int| entry_at(input@, i)));
            }
            j = j + 1;
        }
    }
    proof {
        lemma_scan_from_is(input@, 0, j as int);
        assert(participants@ =~= entries_of(input@));
    }
    if (j as u64) > (max_participants as u64) {
        return Err(LotteryError::InvalidEncoding);
    }
    if (count as u64) != (j as u64) {
        return Err(LotteryError::InvalidEncoding);
    }
    let n = participants.len();
    let mut a: usize = 0;
    while a < n
        invariant
            a <= n,
            n == participants@.len(),
            participants@ == entries_of(input@),
            forall|x: int, y: int|
                0 <= x < y < n && x < a ==> #[trigger] participants@[x].key
                    != #[trigger] participants@[y].key,
        decreases n - a,
    {
        let mut b: usize = a + 1;
        while b < n
            invariant
                a < b <= n,
                a < n,
                n == participants@.len(),
                participants@ == entries_of(input@),
                forall|y: int|
                    a < y < b ==> participants@[a as int].key != #[trigger] participants@[y].key,
            decreases n - b,
        {
            if participants[a].key == participants[b].key {
                proof {
                    assert(!keys_unique(entries_of(input@)));
                }
                return Err(LotteryError::InvalidEncoding);
            }
            b = b + 1;
        }
        a = a + 1;
    }
    assert(keys_unique(participants@));
    let acc = LotteryAccount { max_participants, lottery_state, winner, lottery_start, participants };
    Ok(acc)
}

} // verus!

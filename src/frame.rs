//! Packet framing on the sensor's unframed byte stream.
//!
//! A packet is a header byte, a sync byte and eight payload bytes, the last of
//! which is a trailer. The synchronizer reads one byte at a time until it sees
//! the header, then one byte that must be the sync byte, then the eight payload
//! bytes; any mismatch drops what was read and starts over at the header scan.
use vstd::prelude::*;
use vstd::slice::slice_subrange;

verus! {

pub const HEADER: u8 = 0xAA;

pub const SYNC: u8 = 0xC0;

pub const TRAILER: u8 = 0xAB;

/// Number of payload bytes that follow the header and sync bytes.
pub const PAYLOAD_LEN: usize = 8;

/// The payload found by scanning `s` from position `i`, and the position just
/// after it; `None` when the stream runs out first.
pub open spec fn sync_at(s: Seq<u8>, i: int) -> Option<(Seq<u8>, int)>
    decreases s.len() - i,
    when 0 <= i
{
    if i + 1 > s.len() {
        None
    } else if s[i] != HEADER {
        sync_at(s, i + 1)
    } else if i + 2 > s.len() {
        None
    } else if s[i + 1] != SYNC {
        sync_at(s, i + 2)
    } else if i + 10 > s.len() {
        None
    } else if s[i + 9] != TRAILER {
        sync_at(s, i + 10)
    } else {
        Some((s.subrange(i + 2, i + 10), i + 10))
    }
}

/// Where the synchronizer stands between two reads.
#[derive(Clone, Copy, Debug, PartialEq, Eq)]
pub enum SyncState {
    /// Waiting for the header byte.
    ScanHeader,
    /// The header was read; the sync byte must come next.
    ScanSync,
    /// Header and sync were read; the payload comes next.
    ReadPayload,
}

/// How many bytes the synchronizer reads in `state`.
pub open spec fn wanted(state: SyncState) -> nat {
    match state {
        SyncState::ScanHeader => 1,
        SyncState::ScanSync => 1,
        SyncState::ReadPayload => PAYLOAD_LEN as nat,
    }
}

/// The state that follows reading `chunk` in `state`.
pub open spec fn next_state(state: SyncState, chunk: Seq<u8>) -> SyncState {
    match state {
        SyncState::ScanHeader => if chunk[0] == HEADER {
            SyncState::ScanSync
        } else {
            SyncState::ScanHeader
        },
        SyncState::ScanSync => if chunk[0] == SYNC {
            SyncState::ReadPayload
        } else {
            SyncState::ScanHeader
        },
        SyncState::ReadPayload => SyncState::ScanHeader,
    }
}

/// Whether reading `chunk` in `state` completes a valid packet.
pub open spec fn accepts(state: SyncState, chunk: Seq<u8>) -> bool {
    state == SyncState::ReadPayload && chunk[PAYLOAD_LEN - 1] == TRAILER
}

/// How many bytes to read next in `state`.
pub fn bytes_wanted(state: SyncState) -> (n: usize)
    ensures
        n == wanted(state),
{
    match state {
        SyncState::ScanHeader => 1,
        SyncState::ScanSync => 1,
        SyncState::ReadPayload => PAYLOAD_LEN,
    }
}

/// One transition: reading `chunk` (of the length that `state` asks for)
/// gives the next state, and the payload when it completes a valid packet.
pub fn step(state: SyncState, chunk: &[u8]) -> (r: (SyncState, Option<Vec<u8>>))
    requires
        chunk@.len() == wanted(state),
    ensures
        r.0 == next_state(state, chunk@),
        r.1 is Some <==> accepts(state, chunk@),
        r.1 is Some ==> r.1->0@ == chunk@,
{
    match state {
        SyncState::ScanHeader => {
            if chunk[0] == HEADER {
                (SyncState::ScanSync, None)
            } else {
                (SyncState::ScanHeader, None)
            }
        },
        SyncState::ScanSync => {
            if chunk[0] == SYNC {
                (SyncState::ReadPayload, None)
            } else {
                (SyncState::ScanHeader, None)
            }
        },
        SyncState::ReadPayload => {
            if chunk[PAYLOAD_LEN - 1] == TRAILER {
                let mut payload: Vec<u8> = Vec::new();
                let mut k: usize = 0;
                while k < chunk.len()
                    invariant
                        0 <= k <= chunk@.len(),
                        payload@ == chunk@.subrange(0, k as int),
                    decreases chunk.len() - k,
                {
                    payload.push(chunk[k]);
                    k = k + 1;
                    assert(payload@ =~= chunk@.subrange(0, k as int));
                }
                assert(payload@ =~= chunk@);
                (SyncState::ScanHeader, Some(payload))
            } else {
                (SyncState::ScanHeader, None)
            }
        },
    }
}

/// A payload found in a stream, and the position just after its packet.
#[derive(Debug)]
pub struct Found {
    pub payload: Vec<u8>,
    pub end: usize,
}

/// The payload that the synchronizer's scan from position `i` still reaches,
/// given that it stands in `state` there.
pub open spec fn resumed(state: SyncState, s: Seq<u8>, i: int) -> Option<(Seq<u8>, int)> {
    match state {
        SyncState::ScanHeader => sync_at(s, i),
        SyncState::ScanSync => sync_at(s, i - 1),
        SyncState::ReadPayload => sync_at(s, i - 2),
    }
}

/// Runs the synchronizer over `stream`: the first valid packet's payload and
/// the position just after that packet, or `None` when the stream ends before
/// one is complete.
pub fn find_payload(stream: &[u8]) -> (r: Option<Found>)
    ensures
        r is Some <==> sync_at(stream@, 0) is Some,
        r matches Some(f) ==> sync_at(stream@, 0) == Some((f.payload@, f.end as int)),
{
    let mut state = SyncState::ScanHeader;
    let mut i: usize = 0;
    while bytes_wanted(state) <= stream.len() - i
        invariant
            0 <= i <= stream@.len(),
            state == SyncState::ScanSync ==> i >= 1 && stream@[i - 1] == HEADER,
            state == SyncState::ReadPayload ==> i >= 2 && stream@[i - 2] == HEADER && stream@[i
                - 1] == SYNC,
            resumed(state, stream@, i as int) == sync_at(stream@, 0),
        decreases stream.len() - i,
    {
        let n = bytes_wanted(state);
        let chunk = slice_subrange(stream, i, i + n);
        let (next, payload) = step(state, chunk);
        match payload {
            Some(p) => {
                assert(stream@.subrange(i - 2 + 2, i - 2 + 10) =~= chunk@);
                return Some(Found { payload: p, end: i + n });
            },
            None => {},
        }
        state = next;
        i = i + n;
    }
    None
}

/// A stream that opens with one stray byte and then a valid packet yields that
/// packet's payload, once, and ends the scan right after it.
pub proof fn lemma_skips_noise_then_packet(noise: u8, payload: Seq<u8>)
    requires
        noise != HEADER,
        payload.len() == PAYLOAD_LEN,
        payload[PAYLOAD_LEN - 1] == TRAILER,
    ensures
        sync_at(seq![noise, HEADER, SYNC] + payload, 0) == Some((payload, 11int)),
{
    let s = seq![noise, HEADER, SYNC] + payload;
    assert(s.subrange(3, 11) =~= payload);
    assert(s[0] == noise);
    assert(s[1] == HEADER);
    assert(s[2] == SYNC);
    assert(s[10] == payload[7]);
    assert(sync_at(s, 1) == Some((payload, 11int)));
}

/// A packet with a wrong trailer, followed at once by a valid packet: the
/// broken one is dropped whole and the next one's payload is found.
pub proof fn lemma_recovers_after_bad_trailer(bad: Seq<u8>, good: Seq<u8>)
    requires
        bad.len() == 2 + PAYLOAD_LEN,
        bad[0] == HEADER,
        bad[1] == SYNC,
        bad[9] != TRAILER,
        good.len() == 2 + PAYLOAD_LEN,
        good[0] == HEADER,
        good[1] == SYNC,
        good[9] == TRAILER,
    ensures
        sync_at(bad + good, 0) == Some((good.subrange(2, 10), 20int)),
{
    let s = bad + good;
    assert(s.subrange(12, 20) =~= good.subrange(2, 10));
    assert(s[0] == bad[0]);
    assert(s[1] == bad[1]);
    assert(s[9] == bad[9]);
    assert(s[10] == good[0]);
    assert(s[11] == good[1]);
    assert(s[19] == good[9]);
    assert(sync_at(s, 10) == Some((good.subrange(2, 10), 20int)));
}

} // verus!

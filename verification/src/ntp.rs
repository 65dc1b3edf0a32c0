//! Network time: SNTP packets, clock drift, and the agreement of several
//! servers. Times and drifts are in nanoseconds.
use vstd::prelude::*;

use crate::bytes;

verus! {

/// Seconds from the NTP epoch (1900) to the Unix epoch (1970).
pub const NTP_EPOCH_OFFSET: u64 = 2_208_988_800;

/// Bytes in a packet.
pub const PACKET_LEN: usize = 48;

/// First byte of a request: no leap warning, version 3, client mode.
pub const REQUEST_MODE: u8 = 0x1B;

/// Nanoseconds in a second.
pub const SECOND: i128 = 1_000_000_000;

/// A drift of this much or more disqualifies a server.
pub const CLOCK_DRIFT_LIMIT: i128 = 10_000_000_000;

/// What a server says: its time, and how far the local clock lags behind it.
#[derive(Clone, Copy, PartialEq, Eq, Structural, Debug)]
pub struct Reading {
    pub now: i128,
    pub drift: i128,
}

/// A reading with the server it came from.
pub struct Sample {
    pub host: String,
    pub reading: Reading,
}

/// A request that is sent at `secs` seconds Unix time.
pub open spec fn request(secs: u64) -> Seq<u8> {
    seq![REQUEST_MODE] + bytes::zeros(23) + bytes::be_bytes(
        secs.wrapping_add(NTP_EPOCH_OFFSET) as nat,
        8,
    ) + bytes::zeros(16)
}

/// The time at which a server sent a reply.
pub open spec fn transmit_time(reply: Seq<u8>) -> int {
    (bytes::be_value(reply.subrange(40, 44)) - NTP_EPOCH_OFFSET) * SECOND + bytes::be_value(
        reply.subrange(44, 48),
    ) * SECOND / 0x1_0000_0000
}

/// The reading that a reply gives, where the request left at `t1` and the
/// reply came at `t2`: the server's time plus half the round trip.
pub open spec fn reply_reading(reply: Seq<u8>, t1: int, t2: int) -> (int, int) {
    let now = transmit_time(reply) + (t2 - t1) / 2;
    (now, now - t2)
}

pub open spec fn magnitude(d: int) -> int {
    if d < 0 {
        -d
    } else {
        d
    }
}

/// Whether a drift is small enough.
pub open spec fn within_limit(d: int) -> bool {
    magnitude(d) < CLOCK_DRIFT_LIMIT
}

/// The readings whose drift is small enough, in their order.
pub open spec fn accepted(s: Seq<Reading>) -> Seq<Reading> {
    s.filter(|r: Reading| within_limit(r.drift as int))
}

/// Whether reading `i` comes before reading `j` when ordered by the size of
/// the drift; readings of one size keep their order.
pub open spec fn closer(s: Seq<Reading>, i: int, j: int) -> bool {
    magnitude(s[i].drift as int) < magnitude(s[j].drift as int) || (magnitude(s[i].drift as int)
        == magnitude(s[j].drift as int) && i < j)
}

/// How many of the first `n` readings come before reading `j`.
pub open spec fn count_closer(s: Seq<Reading>, j: int, n: nat) -> nat
    decreases n,
{
    if n == 0 {
        0
    } else {
        count_closer(s, j, (n - 1) as nat) + (if closer(s, n - 1, j) {
            1nat
        } else {
            0nat
        })
    }
}

/// The place of reading `j` when all are ordered by the size of the drift.
pub open spec fn rank(s: Seq<Reading>, j: int) -> nat {
    count_closer(s, j, s.len())
}

/// Whether `r` is the middle one of the readings, ordered by the size of the
/// drift.
pub open spec fn is_median(s: Seq<Reading>, r: Reading) -> bool {
    exists|j: int| 0 <= j < s.len() && #[trigger] rank(s, j) == s.len() / 2 && r == s[j]
}

/// Builds a request that is sent at `secs` seconds Unix time.
pub fn build_request(secs: u64) -> (pkt: [u8; 48])
    ensures
        pkt@ == request(secs),
{
    let mut pkt: [u8; 48] = [0; 48];
    pkt[0] = REQUEST_MODE;
    let stamp: [u8; 8] = bytes::u64_to_le(secs.wrapping_add(NTP_EPOCH_OFFSET));
    let mut i: usize = 0;
    while i < 8
        invariant
            i <= 8,
            pkt@[0] == REQUEST_MODE,
            forall|j: int| 1 <= j < 24 ==> pkt@[j] == 0,
            forall|j: int| 24 <= j < 24 + i ==> pkt@[j] == stamp@[31 - j],
            forall|j: int| 24 + i <= j < 48 ==> pkt@[j] == 0,
        decreases 8 - i,
    {
        pkt[24 + i] = stamp[7 - i];
        i = i + 1;
    }
    proof {
        let want = request(secs);
        let be = bytes::be_bytes(secs.wrapping_add(NTP_EPOCH_OFFSET) as nat, 8);
        assert(be.len() == 8);
        assert forall|j: int| 0 <= j < 8 implies be[j] == stamp@[7 - j] by {}
        assert forall|j: int| 24 <= j < 32 implies pkt@[j] == be[j - 24] by {
            assert(be[j - 24] == stamp@[7 - (j - 24)]);
        }
        assert(pkt@ =~= want);
    }
    pkt
}

/// Half of a span, rounded down.
fn half(x: i128) -> (h: i128)
    requires
        -0x1_0000_0000_0000_0000 <= x <= 0x1_0000_0000_0000_0000,
    ensures
        h == x as int / 2,
{
    if x >= 0 {
        x / 2
    } else {
        -((1 - x) / 2)
    }
}

/// Reads a reply. `None` where it is shorter than a packet.
pub fn parse_reply(reply: &[u8], t1: i64, t2: i64) -> (r: Option<Reading>)
    ensures
        reply@.len() < PACKET_LEN <==> r is None,
        r matches Some(x) ==> (x.now as int, x.drift as int) == reply_reading(
            reply@,
            t1 as int,
            t2 as int,
        ),
{
    if reply.len() < PACKET_LEN {
        return None;
    }
    let secs: u64 = bytes::read_be(reply, 40, 4);
    let frac: u64 = bytes::read_be(reply, 44, 4);
    proof {
        bytes::lemma_pow256_small();
    }
    let whole: i128 = ((secs as i128) - (NTP_EPOCH_OFFSET as i128)) * SECOND;
    let part: i128 = (frac as i128) * SECOND / 0x1_0000_0000;
    let span: i128 = (t2 as i128) - (t1 as i128);
    let now: i128 = whole + part + half(span);
    Some(Reading { now, drift: now - (t2 as i128) })
}

/// Whole seconds since the Unix epoch of a clock reading.
pub fn unix_now_u64(nanos: u64) -> (secs: u64)
    ensures
        secs == nanos as int / SECOND as int,
        secs * 1_000_000_000 <= nanos < (secs + 1) * 1_000_000_000,
{
    nanos / 1_000_000_000
}

/// Whole seconds of an agreed time, as far as they can be counted; a time before
/// the epoch counts as zero.
pub open spec fn seconds_of(now: int) -> u64 {
    if now < 0 {
        0
    } else if now / SECOND as int > u64::MAX {
        u64::MAX
    } else {
        (now / SECOND as int) as u64
    }
}

/// Whole seconds of an agreed time.
pub fn whole_seconds(now: i128) -> (secs: u64)
    ensures
        secs == seconds_of(now as int),
{
    if now < 0 {
        0
    } else {
        let s: i128 = now / SECOND;
        if s > 0xffff_ffff_ffff_ffff {
            0xffff_ffff_ffff_ffff
        } else {
            s as u64
        }
    }
}

fn size(d: i128) -> (m: i128)
    requires
        d > i128::MIN,
    ensures
        m == magnitude(d as int),
{
    if d < 0 {
        -d
    } else {
        d
    }
}

/// Whether a drift is small enough.
pub fn drift_ok(d: i128) -> (r: bool)
    ensures
        r == within_limit(d as int),
        r == (-10_000_000_000 < d < 10_000_000_000),
{
    -CLOCK_DRIFT_LIMIT < d && d < CLOCK_DRIFT_LIMIT
}

fn is_closer(s: &[Reading], i: usize, j: usize) -> (r: bool)
    requires
        i < s@.len(),
        j < s@.len(),
        forall|k: int| 0 <= k < s@.len() ==> within_limit((#[trigger] s@[k]).drift as int),
    ensures
        r == closer(s@, i as int, j as int),
{
    let a: i128 = size(s[i].drift);
    let b: i128 = size(s[j].drift);
    a < b || (a == b && i < j)
}

/// What comes before `b` is what comes before `a`, and `a` itself, where `b`
/// is next after `a`.
proof fn lemma_next_count(s: Seq<Reading>, a: int, b: int, n: nat)
    requires
        0 <= a < s.len(),
        0 <= b < s.len(),
        n <= s.len(),
        closer(s, a, b),
        forall|k: int|
            0 <= k < s.len() && #[trigger] closer(s, a, k) ==> !closer(s, k, b),
    ensures
        count_closer(s, b, n) == count_closer(s, a, n) + (if a < n {
            1nat
        } else {
            0nat
        }),
    decreases n,
{
    if n > 0 {
        lemma_next_count(s, a, b, (n - 1) as nat);
        let k = n - 1;
        if k != a {
            assert(closer(s, k, a) || closer(s, a, k));
        }
    }
}

/// Nothing comes before the first.
proof fn lemma_first_count(s: Seq<Reading>, a: int, n: nat)
    requires
        0 <= a < s.len(),
        n <= s.len(),
        forall|k: int| 0 <= k < s.len() ==> !#[trigger] closer(s, k, a),
    ensures
        count_closer(s, a, n) == 0,
    decreases n,
{
    if n > 0 {
        lemma_first_count(s, a, (n - 1) as nat);
        assert(!closer(s, n - 1, a));
    }
}

/// Everything else comes before the last.
proof fn lemma_last_count(s: Seq<Reading>, a: int, n: nat)
    requires
        0 <= a < s.len(),
        n <= s.len(),
        forall|k: int| 0 <= k < s.len() ==> !#[trigger] closer(s, a, k),
    ensures
        count_closer(s, a, n) + 1 >= n,
        a >= n ==> count_closer(s, a, n) == n,
    decreases n,
{
    if n > 0 {
        lemma_last_count(s, a, (n - 1) as nat);
        let k = n - 1;
        assert(!closer(s, a, k));
        if k != a {
            assert(closer(s, k, a));
        }
    }
}

/// Whether reading `k` comes behind the reading `after`, if there is one.
spec fn behind(s: Seq<Reading>, after: Option<usize>, k: int) -> bool {
    match after {
        Some(a) => closer(s, a as int, k),
        None => true,
    }
}

/// The first reading in the order, or the next one after `after`.
fn next_closest(s: &[Reading], after: Option<usize>) -> (r: Option<usize>)
    requires
        forall|k: int| 0 <= k < s@.len() ==> within_limit((#[trigger] s@[k]).drift as int),
        after matches Some(a) ==> a < s@.len(),
    ensures
        match r {
            Some(b) => {
                &&& b < s@.len()
                &&& behind(s@, after, b as int)
                &&& forall|k: int|
                    0 <= k < s@.len() && #[trigger] behind(s@, after, k) ==> !closer(
                        s@,
                        k,
                        b as int,
                    )
            },
            None => forall|k: int| 0 <= k < s@.len() ==> !#[trigger] behind(s@, after, k),
        },
{
    let mut best: Option<usize> = None;
    let mut i: usize = 0;
    while i < s.len()
        invariant
            i <= s@.len(),
            forall|k: int| 0 <= k < s@.len() ==> within_limit((#[trigger] s@[k]).drift as int),
            after matches Some(a) ==> a < s@.len(),
            match best {
                Some(b) => {
                    &&& b < s@.len()
                    &&& behind(s@, after, b as int)
                    &&& forall|k: int|
                        0 <= k < i && #[trigger] behind(s@, after, k) ==> !closer(
                            s@,
                            k,
                            b as int,
                        )
                },
                None => forall|k: int| 0 <= k < i ==> !#[trigger] behind(s@, after, k),
            },
        decreases s@.len() - i,
    {
        let later: bool = match after {
            Some(a) => is_closer(s, a, i),
            None => true,
        };
        if later {
            let better: bool = match best {
                Some(b) => is_closer(s, i, b),
                None => true,
            };
            if better {
                best = Some(i);
            }
        }
        i = i + 1;
    }
    best
}

/// The agreed time: the middle one, by the size of the drift, of the readings
/// whose drift is small enough. `None` where there is none.
pub fn consensus(results: &[Reading]) -> (r: Option<Reading>)
    ensures
        r is None <==> accepted(results@).len() == 0,
        r matches Some(x) ==> is_median(accepted(results@), x),
        r is None <==> forall|i: int|
            0 <= i < results@.len() ==> !(-10_000_000_000 < (#[trigger] results@[i]).drift
                < 10_000_000_000),
        r matches Some(x) ==> results@.contains(x) && -10_000_000_000 < x.drift < 10_000_000_000,
{
    let mut good: Vec<Reading> = Vec::new();
    let mut i: usize = 0;
    let ghost pred = |r: Reading| within_limit(r.drift as int);
    proof {
        reveal(Seq::filter);
        assert(results@.subrange(0, 0).filter(pred) =~= Seq::<Reading>::empty());
    }
    while i < results.len()
        invariant
            i <= results@.len(),
            pred == (|r: Reading| within_limit(r.drift as int)),
            good@ == results@.subrange(0, i as int).filter(pred),
            forall|k: int| 0 <= k < good@.len() ==> within_limit((#[trigger] good@[k]).drift as int),
        decreases results@.len() - i,
    {
        proof {
            reveal(Seq::filter);
            assert(results@.subrange(0, i + 1).drop_last() =~= results@.subrange(0, i as int));
        }
        if drift_ok(results[i].drift) {
            good.push(results[i]);
        }
        i = i + 1;
    }
    proof {
        assert(results@.subrange(0, results@.len() as int) =~= results@);
    }
    proof {
        assert(good@ == results@.filter(pred));
        assert forall|i: int|
            0 <= i < results@.len() && -10_000_000_000 < (#[trigger] results@[i]).drift
                < 10_000_000_000 implies good@.len() > 0 by {
            results@.lemma_filter_contains(pred, i);
        }
        assert forall|k: int| 0 <= k < good@.len() implies results@.contains(#[trigger] good@[k]) by {
            assert(results@.filter(pred).contains(good@[k]));
            results@.lemma_filter_contains_rev(pred, good@[k]);
        }
        if good@.len() > 0 {
            assert(within_limit(good@[0].drift as int));
            let i = choose|i: int| 0 <= i < results@.len() && results@[i] == good@[0];
            assert(-10_000_000_000 < results@[i].drift < 10_000_000_000);
        }
    }
    if good.len() == 0 {
        return None;
    }
    let mut at: Option<usize> = next_closest(good.as_slice(), None);
    let target: usize = good.len() / 2;
    let mut place: usize = 0;
    proof {
        assert(behind(good@, None, 0));
        let a = at->0 as int;
        assert forall|k: int| 0 <= k < good@.len() implies !#[trigger] closer(good@, k, a) by {
            assert(behind(good@, None, k));
        }
        lemma_first_count(good@, a, good@.len());
    }
    while place < target
        invariant
            place <= target < good@.len(),
            target == good@.len() / 2,
            forall|k: int| 0 <= k < good@.len() ==> results@.contains(#[trigger] good@[k]),
            forall|k: int| 0 <= k < good@.len() ==> within_limit((#[trigger] good@[k]).drift as int),
            at matches Some(a) && a < good@.len() && rank(good@, a as int) == place,
        decreases target - place,
    {
        let ghost before = at;
        at = next_closest(good.as_slice(), at);
        proof {
            let a = before->0 as int;
            if let Some(b) = at {
                assert forall|k: int|
                    0 <= k < good@.len() && #[trigger] closer(good@, a, k) implies !closer(
                    good@,
                    k,
                    b as int,
                ) by {
                    assert(behind(good@, before, k));
                }
                lemma_next_count(good@, a, b as int, good@.len());
            } else {
                assert forall|k: int| 0 <= k < good@.len() implies !#[trigger] closer(
                    good@,
                    a,
                    k,
                ) by {
                    assert(!behind(good@, before, k));
                }
                lemma_last_count(good@, a, good@.len());
            }
        }
        place = place + 1;
    }
    match at {
        Some(a) => Some(good[a]),
        None => None,
    }
}

/// What comes before a reading comes before those behind it too.
proof fn lemma_ranks_ascend(s: Seq<Reading>, i: int, j: int, n: nat)
    requires
        0 <= i < s.len(),
        0 <= j < s.len(),
        n <= s.len(),
        closer(s, i, j),
    ensures
        count_closer(s, j, n) >= count_closer(s, i, n) + (if i < n {
            1nat
        } else {
            0nat
        }),
    decreases n,
{
    if n > 0 {
        lemma_ranks_ascend(s, i, j, (n - 1) as nat);
    }
}

/// The servers agree on one reading: there are no two in the middle.
pub proof fn law_median_unique(s: Seq<Reading>, a: Reading, b: Reading)
    requires
        is_median(s, a),
        is_median(s, b),
    ensures
        a == b,
{
    let i = choose|j: int| 0 <= j < s.len() && #[trigger] rank(s, j) == s.len() / 2 && a == s[j];
    let k = choose|j: int| 0 <= j < s.len() && #[trigger] rank(s, j) == s.len() / 2 && b == s[j];
    if closer(s, i, k) {
        lemma_ranks_ascend(s, i, k, s.len());
    } else if closer(s, k, i) {
        lemma_ranks_ascend(s, k, i, s.len());
    }
}

/// What the servers agree on is no further from the local clock than allowed.
pub proof fn law_agreed_within_limit(results: Seq<Reading>, r: Reading)
    requires
        is_median(accepted(results), r),
    ensures
        within_limit(r.drift as int),
{
    let pred = |r: Reading| within_limit(r.drift as int);
    let s = accepted(results);
    let j = choose|j: int| 0 <= j < s.len() && #[trigger] rank(s, j) == s.len() / 2 && r == s[j];
    results.lemma_filter_pred(pred, j);
}

/// The readings in `s` that lie strictly closer to the local clock than `r`.
pub open spec fn nearer(s: Seq<Reading>, r: Reading) -> Seq<Reading> {
    s.filter(|x: Reading| abs(x.drift as int) < abs(r.drift as int))
}

/// The readings in `s` that lie strictly further from the local clock than
/// `r`.
pub open spec fn further(s: Seq<Reading>, r: Reading) -> Seq<Reading> {
    s.filter(|x: Reading| abs(x.drift as int) > abs(r.drift as int))
}

/// The readings in `s` that lie as far from the local clock as `r`.
pub open spec fn as_far(s: Seq<Reading>, r: Reading) -> Seq<Reading> {
    s.filter(|x: Reading| abs(x.drift as int) == abs(r.drift as int))
}

/// A number without its sign.
pub open spec fn abs(d: int) -> int {
    if d >= 0 {
        d
    } else {
        0 - d
    }
}

/// The number of readings before one of them is that of the nearer ones and of
/// those in front of it that are as far.
proof fn lemma_count_closer(s: Seq<Reading>, j: int, n: nat)
    requires
        0 <= j < s.len(),
        n <= s.len(),
    ensures
        count_closer(s, j, n) == nearer(s.subrange(0, n as int), s[j]).len() + as_far(
            s.subrange(0, if n <= j { n as int } else { j }),
            s[j],
        ).len(),
    decreases n,
{
    reveal(Seq::filter);
    if n > 0 {
        lemma_count_closer(s, j, (n - 1) as nat);
        let a = s.subrange(0, n as int);
        assert(a.drop_last() =~= s.subrange(0, n - 1));
        assert(a.last() == s[n - 1]);
        if n <= j {
            assert(as_far(a, s[j]).len() == as_far(a.drop_last(), s[j]).len() + if abs(
                s[n - 1].drift as int,
            ) == abs(s[j].drift as int) {
                1int
            } else {
                0int
            });
        }
    } else {
        assert(s.subrange(0, 0) =~= Seq::<Reading>::empty());
    }
}

/// Nearer, further and equally far readings make up all readings.
proof fn lemma_split(s: Seq<Reading>, r: Reading)
    ensures
        nearer(s, r).len() + further(s, r).len() + as_far(s, r).len() == s.len(),
    decreases s.len(),
{
    reveal(Seq::filter);
    if s.len() > 0 {
        lemma_split(s.drop_last(), r);
    }
}

/// A part in front holds no more equally far readings than the whole.
proof fn lemma_as_far_prefix(s: Seq<Reading>, r: Reading, j: int)
    requires
        0 <= j <= s.len(),
    ensures
        as_far(s.subrange(0, j), r).len() + (if j < s.len() && abs(s[j].drift as int) == abs(
            r.drift as int,
        ) {
            1int
        } else {
            0int
        }) <= as_far(s, r).len(),
    decreases s.len() - j,
{
    reveal(Seq::filter);
    if j == s.len() {
        assert(s.subrange(0, j) =~= s);
    } else {
        lemma_as_far_prefix(s, r, j + 1);
        assert(s.subrange(0, j + 1).drop_last() =~= s.subrange(0, j));
        assert(s.subrange(0, j + 1).last() == s[j]);
    }
}

/// What the servers agree on is in the middle. Of the `n` readings that are
/// less than ten seconds off, at most `n / 2` lie nearer to the local clock than
/// the agreed one, and at most `(n - 1) / 2` lie further off. Ordered by their
/// distance, with equally far ones left in their order, exactly `n / 2` of them
/// come before it.
pub proof fn law_agreed_is_in_the_middle(results: Seq<Reading>, r: Reading)
    requires
        is_median(accepted(results), r),
    ensures
        ({
            let good = results.filter(
                |x: Reading| -10_000_000_000 < x.drift < 10_000_000_000,
            );
            &&& nearer(good, r).len() <= good.len() / 2
            &&& further(good, r).len() <= (good.len() - 1) / 2
            &&& exists|j: int|
                0 <= j < good.len() && #[trigger] good[j] == r && nearer(good, r).len() + as_far(
                    good.subrange(0, j),
                    r,
                ).len() == good.len() / 2
        }),
{
    let good = results.filter(|x: Reading| -10_000_000_000 < x.drift < 10_000_000_000);
    let s = accepted(results);
    lemma_same_filter(results);
    assert(good == s);
    let j = choose|j: int| 0 <= j < s.len() && #[trigger] rank(s, j) == s.len() / 2 && r == s[j];
    lemma_count_closer(s, j, s.len());
    assert(s.subrange(0, s.len() as int) =~= s);
    lemma_split(s, r);
    lemma_as_far_prefix(s, r, j);
    assert(good[j] == r && nearer(good, r).len() + as_far(good.subrange(0, j), r).len()
        == good.len() / 2);
}

proof fn lemma_same_filter(results: Seq<Reading>)
    ensures
        results.filter(|x: Reading| -10_000_000_000 < x.drift < 10_000_000_000) == accepted(
            results,
        ),
    decreases results.len(),
{
    reveal(Seq::filter);
    if results.len() > 0 {
        lemma_same_filter(results.drop_last());
    }
}

/// A reply says when it was sent, in seconds since 1900 and in parts of two to
/// the thirty-second of a second, most significant byte first. The server's
/// time is that plus half the round trip, and the drift is how far it is ahead
/// of the local clock at the reply.
pub proof fn law_reply_reading(reply: Seq<u8>, t1: int, t2: int)
    requires
        reply.len() >= 48,
    ensures
        ({
            let secs = reply[40] * 0x100_0000 + reply[41] * 0x1_0000 + reply[42] * 0x100
                + reply[43];
            let frac = reply[44] * 0x100_0000 + reply[45] * 0x1_0000 + reply[46] * 0x100
                + reply[47];
            let sent = (secs - 2_208_988_800) * 1_000_000_000 + frac * 1_000_000_000
                / 0x1_0000_0000;
            let (now, drift) = reply_reading(reply, t1, t2);
            &&& now == sent + (t2 - t1) / 2
            &&& now - drift == t2
        }),
{
    lemma_be_four(reply, 40);
    lemma_be_four(reply, 44);
}

proof fn lemma_be_four(s: Seq<u8>, at: int)
    requires
        0 <= at,
        at + 4 <= s.len(),
    ensures
        bytes::be_value(s.subrange(at, at + 4)) == s[at] * 0x100_0000 + s[at + 1] * 0x1_0000 + s[at
            + 2] * 0x100 + s[at + 3],
{
    let a = s.subrange(at, at + 4);
    let b = a.drop_last();
    let c = b.drop_last();
    let d = c.drop_last();
    assert(d.drop_last() =~= Seq::<u8>::empty());
    assert(bytes::be_value(d.drop_last()) == 0);
    assert(bytes::be_value(d) == s[at]);
    assert(bytes::be_value(c) == 256 * s[at] + s[at + 1]);
    assert(bytes::be_value(b) == 256 * (256 * s[at] + s[at + 1]) + s[at + 2]);
}

/// Whole seconds are those that have passed: the agreed time lies in the
/// second that is given.
pub proof fn law_whole_seconds(now: int)
    requires
        0 <= now < 0x1_0000_0000_0000_0000 * 1_000_000_000,
    ensures
        seconds_of(now) * 1_000_000_000 <= now < (seconds_of(now) + 1) * 1_000_000_000,
{
}

/// A drift is small enough exactly if it is less than ten seconds, ahead or
/// behind.
pub proof fn law_drift_limit(d: int)
    ensures
        within_limit(d) <==> -10_000_000_000 < d < 10_000_000_000,
{
}

/// A request is 48 bytes: the mode in the first one, the time of sending in
/// seconds since 1900 from the twenty-fifth on, most significant byte first, and
/// zeros elsewhere.
pub proof fn law_request(secs: u64, i: int)
    requires
        0 <= i < 48,
        secs <= 0xffff_ffff_ffff_ffff - 2_208_988_800,
    ensures
        request(secs).len() == 48,
        request(secs)[0] == 0x1B,
        bytes::be_value(request(secs).subrange(24, 32)) == secs + 2_208_988_800,
        (1 <= i < 24 || 32 <= i) ==> request(secs)[i] == 0,
{
    let r = request(secs);
    let x = (secs + 2_208_988_800) as nat;
    let b = bytes::be_bytes(x, 8);
    bytes::lemma_le_bytes_len(x, 8);
    bytes::lemma_pow256_small();
    bytes::law_numbers_read_back(x, 8);
    assert(r.subrange(24, 32) =~= b);
}

} // verus!

//! Claims as leases: a claim is honoured while fresh, and the item returns
//! to the pool once the lease lapses. An assignment without a claim time is a
//! deliberate hand-off and never expires.

use vstd::prelude::*;
use crate::text::{chars_of, chars_eq, parse_i64, parse_i64_spec, str_eq, trim, trim_chars};

verus! {

/// Default lease length, in minutes.
pub const DEFAULT_CLAIM_TTL_MINUTES: i64 = 60;

/// What an actor may do with an item, given who holds it.
#[derive(Debug, Clone, Copy, PartialEq, Eq, Structural)]
pub enum ClaimState {
    /// Nobody holds it.
    Free,
    /// This actor holds it.
    Held,
    /// Someone else holds it and the lease is still good.
    HeldByOther,
    /// Someone else held it but the lease lapsed; anyone may reclaim.
    Expired,
}

impl ClaimState {
    /// Whether an actor looking for work should be offered this item: only
    /// work under someone else's live claim is withheld.
    pub fn available(self) -> (b: bool)
        ensures
            b == (self != ClaimState::HeldByOther),
    {
        match self {
            ClaimState::Free | ClaimState::Held | ClaimState::Expired => true,
            ClaimState::HeldByOther => false,
        }
    }
}

/// Whether an assignee name denotes the acting identity.
pub open spec fn actor_matches(assignee: Seq<char>, actor: Seq<char>) -> bool {
    assignee == actor
}

/// The claim state of an item for `actor` at time `now` (seconds), with the
/// lease lasting `ttl` seconds.
pub open spec fn classify_spec(
    assignee: Option<Seq<char>>,
    claimed_at: Option<i64>,
    actor: Seq<char>,
    ttl: i64,
    now: i64,
) -> ClaimState {
    match assignee {
        None => ClaimState::Free,
        Some(a) => if trim(a).len() == 0 {
            ClaimState::Free
        } else if actor_matches(a, actor) {
            ClaimState::Held
        } else {
            match claimed_at {
                None => ClaimState::HeldByOther,
                Some(at) => if now - at >= ttl {
                    ClaimState::Expired
                } else {
                    ClaimState::HeldByOther
                },
            }
        },
    }
}

/// Classify an item for `actor`. `now` is passed in rather than read, so the
/// expiry boundary (inclusive) is exact.
pub fn classify(
    assignee: Option<&str>,
    claimed_at: Option<i64>,
    actor: &str,
    ttl: i64,
    now: i64,
) -> (c: ClaimState)
    ensures
        c == classify_spec(
            match assignee {
                Some(a) => Some(a@),
                None => None,
            },
            claimed_at,
            actor@,
            ttl,
            now,
        ),
{
    let a = match assignee {
        None => return ClaimState::Free,
        Some(a) => a,
    };
    let av = chars_of(a);
    let t = trim_chars(&av);
    if t.len() == 0 {
        return ClaimState::Free;
    }
    if str_eq(a, actor) {
        return ClaimState::Held;
    }
    match claimed_at {
        None => ClaimState::HeldByOther,
        Some(at) => {
            let age: i128 = (now as i128) - (at as i128);
            if age >= ttl as i128 {
                ClaimState::Expired
            } else {
                ClaimState::HeldByOther
            }
        },
    }
}

/// The lease length in minutes: the `claim_ttl_minutes` setting when it is
/// a positive integer, the default otherwise. The first entry for the key
/// counts.
pub open spec fn claim_ttl_spec(settings: Seq<(Seq<char>, Seq<char>)>) -> i64 {
    let k = "claim_ttl_minutes"@;
    let ks = settings.map_values(|p: (Seq<char>, Seq<char>)| p.0);
    if ks.contains(k) {
        let i = crate::store::first_index(ks, k);
        match parse_i64_spec(settings[i].1) {
            Some(m) => if m > 0 {
                m
            } else {
                DEFAULT_CLAIM_TTL_MINUTES
            },
            None => DEFAULT_CLAIM_TTL_MINUTES,
        }
    } else {
        DEFAULT_CLAIM_TTL_MINUTES
    }
}

pub fn claim_ttl(settings: &Vec<(String, String)>) -> (m: i64)
    ensures
        m == claim_ttl_spec(crate::text::pairs_view(settings@)),
        m > 0,
{
    let key = chars_of("claim_ttl_minutes");
    let ghost sv = crate::text::pairs_view(settings@);
    let ghost ks = sv.map_values(|p: (Seq<char>, Seq<char>)| p.0);
    let mut i: usize = 0;
    while i < settings.len()
        invariant
            i <= settings.len(),
            key@ == "claim_ttl_minutes"@,
            sv == crate::text::pairs_view(settings@),
            ks == sv.map_values(|p: (Seq<char>, Seq<char>)| p.0),
            crate::store::first_index(ks.take(i as int), key@) == -1,
        decreases settings.len() - i,
    {
        proof {
            crate::store::lemma_first_index_push(ks.take(i as int), key@, ks[i as int]);
            assert(ks.take(i as int).push(ks[i as int]) =~= ks.take(i + 1));
            assert(ks[i as int] == settings@[i as int].0@);
        }
        let k = chars_of(settings[i].0.as_str());
        if chars_eq(&k, &key) {
            let v = chars_of(settings[i].1.as_str());
            proof {
                crate::store::lemma_first_index_prefix(ks, key@, i + 1);
                assert(ks.contains(key@));
                assert(sv[i as int].1 == v@);
            }
            return match parse_i64(&v) {
                Some(m) => if m > 0 {
                    m
                } else {
                    DEFAULT_CLAIM_TTL_MINUTES
                },
                None => DEFAULT_CLAIM_TTL_MINUTES,
            };
        }
        i += 1;
    }
    proof {
        assert(ks.take(i as int) =~= ks);
        crate::store::lemma_first_index(ks, key@);
        if ks.contains(key@) {
            let j = choose|j: int| 0 <= j < ks.len() && ks[j] == key@;
            assert(ks[j] == key@);
        }
    }
    DEFAULT_CLAIM_TTL_MINUTES
}

// ───────────────────────── laws ─────────────────────────

/// A lapsed lease stays lapsed: once an item's claim has expired, it is
/// still expired at any later time.
pub proof fn law_expiry_is_permanent(
    assignee: Option<Seq<char>>,
    claimed_at: Option<i64>,
    actor: Seq<char>,
    ttl: i64,
    now: i64,
    later: i64,
)
    requires
        classify_spec(assignee, claimed_at, actor, ttl, now) == ClaimState::Expired,
        now <= later,
    ensures
        classify_spec(assignee, claimed_at, actor, ttl, later) == ClaimState::Expired,
{
}

/// An actor never loses its own claim, however old, and a deliberate
/// assignment (no claim time) never expires.
pub proof fn law_own_claims_and_assignments_persist(
    assignee: Seq<char>,
    claimed_at: Option<i64>,
    actor: Seq<char>,
    ttl: i64,
    now: i64,
)
    ensures
        trim(assignee).len() > 0 && actor_matches(assignee, actor) ==> classify_spec(
            Some(assignee),
            claimed_at,
            actor,
            ttl,
            now,
        ) == ClaimState::Held,
        claimed_at is None ==> classify_spec(Some(assignee), claimed_at, actor, ttl, now)
            != ClaimState::Expired,
{
}

/// The lease always has a positive length, so a claim can always lapse.
pub proof fn law_ttl_positive(settings: Seq<(Seq<char>, Seq<char>)>)
    ensures
        claim_ttl_spec(settings) > 0,
{
}

} // verus!

//! Refreshing tokens before they expire.

use crate::ident::random_word;
use vstd::prelude::*;

verus! {

/// What is known of an account: its names for signing in, whether it has a token, and when
/// that expires where it says so.
#[derive(Debug)]
pub struct TokenHolder {
    pub email: String,
    pub password: String,
    pub token: String,
    pub expires_at: Option<i64>,
}

/// The account can be signed in again, and its token expires by the time `cutoff`.
pub open spec fn is_due(a: TokenHolder, cutoff: int) -> bool {
    &&& a.password@.len() > 0
    &&& a.token@.len() > 0
    &&& a.expires_at matches Some(t) && t <= cutoff
}

/// The time by which a token has to last.
pub open spec fn cutoff_at(now: int, ahead_days: int) -> int {
    now + ahead_days * 86400
}

/// The accounts that are due, in their order, by their places in the list.
pub open spec fn due_places(accounts: Seq<TokenHolder>, cutoff: int) -> Seq<int>
    decreases accounts.len(),
{
    if accounts.len() == 0 {
        Seq::empty()
    } else {
        let head = due_places(accounts.drop_last(), cutoff);
        if is_due(accounts.last(), cutoff) {
            head.push(accounts.len() - 1)
        } else {
            head
        }
    }
}

/// At most `batch` of a sequence, from its front.
pub open spec fn first_of_batch(places: Seq<int>, batch: int) -> Seq<int> {
    if places.len() > batch {
        places.take(batch)
    } else {
        places
    }
}

/// Whether an account is due.
pub fn due_by(a: &TokenHolder, cutoff: i128) -> (r: bool)
    ensures
        r == is_due(*a, cutoff as int),
{
    if a.password.as_str().is_empty() || a.token.as_str().is_empty() {
        return false;
    }
    match a.expires_at {
        Some(t) => t as i128 <= cutoff,
        None => false,
    }
}

/// The places in the list of the accounts whose tokens are refreshed in one round: those that
/// expire within so many days, at most `batch` of them.
pub fn select_due(accounts: &Vec<TokenHolder>, now: i64, ahead_days: i64, batch: usize) -> (r: Vec<
    usize,
>)
    ensures
        r@.map_values(|i: usize| i as int) == first_of_batch(
            due_places(accounts@, cutoff_at(now as int, ahead_days as int)),
            batch as int,
        ),
{
    let cutoff: i128 = now as i128 + ahead_days as i128 * 86400;
    let n: usize = accounts.len();
    let mut out: Vec<usize> = Vec::new();
    let ghost c = cutoff_at(now as int, ahead_days as int);
    let mut i: usize = 0;
    proof {
        assert(out@.map_values(|i: usize| i as int) =~= due_places(accounts@.take(0), c));
    }
    while i < n
        invariant
            n == accounts@.len(),
            cutoff == c,
            i <= n,
            out@.map_values(|i: usize| i as int) == due_places(accounts@.take(i as int), c),
        decreases n - i,
    {
        let ghost before = out@;
        proof {
            assert(accounts@.take(i as int + 1).drop_last() =~= accounts@.take(i as int));
            assert(accounts@.take(i as int + 1).last() == accounts@[i as int]);
        }
        if due_by(&accounts[i], cutoff) {
            out.push(i);
            proof {
                assert(out@.map_values(|i: usize| i as int) =~= before.map_values(
                    |i: usize| i as int,
                ).push(i as int));
            }
        }
        i += 1;
    }
    proof {
        assert(accounts@.take(n as int) =~= accounts@);
    }
    if out.len() > batch {
        let ghost all = out@.map_values(|i: usize| i as int);
        out.truncate(batch);
        proof {
            assert(out@.map_values(|i: usize| i as int) =~= all.take(batch as int));
        }
    }
    out
}

/// Who is refreshed is due, nobody twice, and no more than the batch allows.
pub proof fn refreshed_accounts_are_due(accounts: Seq<TokenHolder>, cutoff: int)
    ensures
        forall|k: int|
            0 <= k < due_places(accounts, cutoff).len() ==> 0 <= #[trigger] due_places(
                accounts,
                cutoff,
            )[k] < accounts.len() && is_due(
                accounts[due_places(accounts, cutoff)[k]],
                cutoff,
            ),
        forall|k: int, l: int|
            0 <= k < l < due_places(accounts, cutoff).len() ==> #[trigger] due_places(
                accounts,
                cutoff,
            )[k] < #[trigger] due_places(accounts, cutoff)[l],
    decreases accounts.len(),
{
    if accounts.len() > 0 {
        let rest = accounts.drop_last();
        refreshed_accounts_are_due(rest, cutoff);
        let head = due_places(rest, cutoff);
        let all = due_places(accounts, cutoff);
        assert forall|k: int| 0 <= k < all.len() implies 0 <= #[trigger] all[k] < accounts.len()
            && is_due(accounts[all[k]], cutoff) by {
            if k < head.len() {
                assert(all[k] == head[k]);
                assert(rest[head[k]] == accounts[head[k]]);
            }
        }
        assert forall|k: int, l: int| 0 <= k < l < all.len() implies #[trigger] all[k]
            < #[trigger] all[l] by {
            assert(all[k] == head[k]);
            if l < head.len() {
                assert(all[l] == head[l]);
            }
        }
    }
}

/// The pause that a random number gives: from the shortest up to, but not with, the longest;
/// always the shortest where the longest is no longer than that.
pub open spec fn pause_of(shortest: int, longest: int, word: int) -> int {
    if longest > shortest {
        shortest + word % (longest - shortest)
    } else {
        shortest
    }
}

/// The pause between two refreshes that a random number gives, in milliseconds.
pub fn refresh_pause(jmin: u64, jmax: u64, word: u64) -> (r: u64)
    ensures
        r == pause_of(jmin as int, jmax as int, word as int),
        jmin <= r,
        r < jmax || r == jmin,
{
    if jmax > jmin {
        let span: u64 = jmax - jmin;
        jmin + word % span
    } else {
        jmin
    }
}

/// A random pause between two refreshes, in milliseconds.
pub fn random_refresh_pause(jmin: u64, jmax: u64) -> (r: u64)
    ensures
        jmin <= r,
        r < jmax || r == jmin,
{
    refresh_pause(jmin, jmax, random_word())
}

} // verus!

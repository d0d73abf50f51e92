//! Single-use, time-limited authentication tokens.
//!
//! The store keeps one record per outstanding token string. A token is issued
//! with the current time, may be redeemed at most once, and is worthless once
//! its age exceeds [`TOKEN_MAX_AGE_MILLIS`]. Callers pass the current time in
//! explicitly (milliseconds from any fixed origin on a monotonic clock), so
//! every operation here is a plain function of its arguments and the store.

use vstd::prelude::*;

use crate::UserHandle;
use rand::Rng;

verus! {

/// Maximum age of a token, in milliseconds.
///
/// A token that has not been redeemed within this window is invalid and is
/// dropped by [`Auth::cleanup`] or on the validation attempt itself.
pub const TOKEN_MAX_AGE_MILLIS: u64 = 60_000;

/// What the store remembers about one outstanding token.
#[derive(Debug, Clone, Copy, PartialEq, Eq, Structural)]
pub struct TokenRecord {
    pub user: UserHandle,
    pub issued_at: u64,
}

/// One stored token string with its record.
struct TokenEntry {
    token: String,
    record: TokenRecord,
}

/// A record issued at `issued_at` is still within its age window at `now`.
pub open spec fn live_at(issued_at: u64, now: u64) -> bool {
    now <= issued_at + TOKEN_MAX_AGE_MILLIS
}

/// Characters that may appear in an issued token: ASCII alphanumerics.
pub open spec fn is_token_char(c: char) -> bool {
    ('a' as int <= c as int && c as int <= 'z' as int)
    || ('A' as int <= c as int && c as int <= 'Z' as int)
    || ('0' as int <= c as int && c as int <= '9' as int)
}

/// How issuing a token changes the abstract store.
pub open spec fn spec_issue(
    m: Map<Seq<char>, TokenRecord>,
    token: Seq<char>,
    user: UserHandle,
    now: u64,
) -> Map<Seq<char>, TokenRecord> {
    m.insert(token, TokenRecord { user, issued_at: now })
}

/// What validating `token` at time `now` returns, and the store it leaves.
///
/// A present token is consumed by the attempt whether or not it is still
/// live; only a live one yields its owner.
pub open spec fn spec_validate(
    m: Map<Seq<char>, TokenRecord>,
    token: Seq<char>,
    now: u64,
) -> (Option<UserHandle>, Map<Seq<char>, TokenRecord>) {
    if m.dom().contains(token) {
        if live_at(m[token].issued_at, now) {
            (Some(m[token].user), m.remove(token))
        } else {
            (None, m.remove(token))
        }
    } else {
        (None, m)
    }
}

/// The store after a sweep at time `now`: exactly the live records remain.
pub open spec fn spec_cleanup(
    m: Map<Seq<char>, TokenRecord>,
    now: u64,
) -> Map<Seq<char>, TokenRecord> {
    Map::new(
        |t: Seq<char>| m.dom().contains(t) && live_at(m[t].issued_at, now),
        |t: Seq<char>| m[t],
    )
}

/// The map held by a sequence of entries; a later entry wins a shared key.
spec fn entries_map(s: Seq<TokenEntry>) -> Map<Seq<char>, TokenRecord>
    decreases s.len(),
{
    if s.len() == 0 {
        Map::empty()
    } else {
        entries_map(s.drop_last()).insert(s.last().token@, s.last().record)
    }
}

/// No two entries hold the same token string.
spec fn unique_tokens(s: Seq<TokenEntry>) -> bool {
    forall|i: int, j: int| 0 <= i < j < s.len() ==> s[i].token@ != s[j].token@
}

proof fn lemma_entries_map_dom(s: Seq<TokenEntry>, k: Seq<char>)
    ensures
        entries_map(s).dom().contains(k) <==> exists|i: int|
            0 <= i < s.len() && s[i].token@ == k,
    decreases s.len(),
{
    if s.len() > 0 {
        lemma_entries_map_dom(s.drop_last(), k);
        if s.last().token@ == k {
            assert(s[s.len() - 1].token@ == k);
        } else {
            if exists|i: int| 0 <= i < s.len() && s[i].token@ == k {
                let i = choose|i: int| 0 <= i < s.len() && s[i].token@ == k;
                assert(s.drop_last()[i].token@ == k);
            }
            if exists|i: int| 0 <= i < s.drop_last().len() && s.drop_last()[i].token@ == k {
                let i = choose|i: int|
                    0 <= i < s.drop_last().len() && s.drop_last()[i].token@ == k;
                assert(s[i].token@ == k);
            }
        }
    }
}

proof fn lemma_entries_map_val(s: Seq<TokenEntry>, i: int)
    requires
        unique_tokens(s),
        0 <= i < s.len(),
    ensures
        entries_map(s).dom().contains(s[i].token@),
        entries_map(s)[s[i].token@] == s[i].record,
    decreases s.len(),
{
    if i < s.len() - 1 {
        assert(unique_tokens(s.drop_last())) by {
            assert forall|p: int, q: int| 0 <= p < q < s.drop_last().len()
                implies s.drop_last()[p].token@ != s.drop_last()[q].token@ by {
                assert(s[p].token@ != s[q].token@);
            }
        }
        lemma_entries_map_val(s.drop_last(), i);
        assert(s.last().token@ != s[i].token@);
        assert(s.drop_last()[i] == s[i]);
    }
}

proof fn lemma_entries_map_remove(s: Seq<TokenEntry>, i: int)
    requires
        unique_tokens(s),
        0 <= i < s.len(),
    ensures
        unique_tokens(s.remove(i)),
        entries_map(s.remove(i)) =~= entries_map(s).remove(s[i].token@),
    decreases s.len(),
{
    assert forall|p: int, q: int| 0 <= p < q < s.remove(i).len()
        implies s.remove(i)[p].token@ != s.remove(i)[q].token@ by {
        let sp: int = if p < i { p } else { p + 1 };
        let sq: int = if q < i { q } else { q + 1 };
        assert(s.remove(i)[p] == s[sp]);
        assert(s.remove(i)[q] == s[sq]);
        assert(s[sp].token@ != s[sq].token@);
    }
    assert(unique_tokens(s.drop_last())) by {
        assert forall|p: int, q: int| 0 <= p < q < s.drop_last().len()
            implies s.drop_last()[p].token@ != s.drop_last()[q].token@ by {
            assert(s[p].token@ != s[q].token@);
        }
    }
    lemma_entries_map_dom(s.drop_last(), s[i].token@);
    if i == s.len() - 1 {
        assert(s.remove(i) =~= s.drop_last());
        // the dropped key is absent from the rest, so removing it undoes the insert
        assert(!entries_map(s.drop_last()).dom().contains(s[i].token@));
    } else {
        assert(s.remove(i).drop_last() =~= s.drop_last().remove(i));
        assert(s.remove(i).last() == s.last());
        lemma_entries_map_remove(s.drop_last(), i);
        assert(s.last().token@ != s[i].token@);
    }
}

proof fn lemma_entries_map_push(s: Seq<TokenEntry>, e: TokenEntry)
    ensures
        entries_map(s.push(e)) == entries_map(s).insert(e.token@, e.record),
{
    assert(s.push(e).drop_last() =~= s);
    assert(s.push(e).last() == e);
}

/// Relies on rand's `Alphanumeric` distribution: each sample is a uniformly
/// random byte drawn from `a-z`, `A-Z`, `0-9`, and sixty-four samples are
/// taken, so the result is a 64-character ASCII-alphanumeric string. The
/// result is random, so nothing more is promised of it.
#[verifier::external_body]
fn random_alphanumeric_64() -> (token: String)
    ensures
        token@.len() == 64,
        forall|i: int| 0 <= i < token@.len() ==> is_token_char(#[trigger] token@[i]),
{
    rand::thread_rng()
        .sample_iter(&rand::distributions::Alphanumeric)
        .take(64)
        .map(char::from)
        .collect()
}

/// The authentication provider: a store of outstanding single-use tokens.
///
/// Viewed abstractly as a map from token strings to their records. The store
/// itself is single-threaded; a caller that shares it across threads guards
/// it with one mutual-exclusion domain per operation.
pub struct Auth {
    entries: Vec<TokenEntry>,
}

impl View for Auth {
    type V = Map<Seq<char>, TokenRecord>;

    closed spec fn view(&self) -> Map<Seq<char>, TokenRecord> {
        entries_map(self.entries@)
    }
}

impl Auth {
    /// The store's internal invariant: one entry per token string.
    pub closed spec fn wf(&self) -> bool {
        unique_tokens(self.entries@)
    }

    /// Creates an empty store.
    pub fn new() -> (a: Auth)
        ensures
            a.wf(),
            a@ == Map::<Seq<char>, TokenRecord>::empty(),
    {
        Auth { entries: Vec::new() }
    }

    /// Index of the entry holding `token`, if any.
    fn find_index(&self, token: &String) -> (r: Option<usize>)
        ensures
            match r {
                Some(i) => i < self.entries@.len() && self.entries@[i as int].token@ == token@,
                None => forall|j: int|
                    0 <= j < self.entries@.len() ==> self.entries@[j].token@ != token@,
            },
    {
        let mut i: usize = 0;
        while i < self.entries.len()
            invariant
                i <= self.entries@.len(),
                forall|j: int| 0 <= j < i ==> self.entries@[j].token@ != token@,
            decreases self.entries@.len() - i,
        {
            if self.entries[i].token == *token {
                return Some(i);
            }
            i += 1;
        }
        None
    }

    /// Stores `record` under `token`, replacing any record the token had.
    fn insert_record(&mut self, token: String, record: TokenRecord)
        requires
            old(self).wf(),
        ensures
            final(self).wf(),
            final(self)@ == old(self)@.insert(token@, record),
    {
        let ghost m0 = self@;
        match self.find_index(&token) {
            Some(i) => {
                proof {
                    lemma_entries_map_remove(self.entries@, i as int);
                }
                self.entries.remove(i);
                proof {
                    lemma_entries_map_dom(self.entries@, token@);
                }
            }
            None => {
                proof {
                    lemma_entries_map_dom(self.entries@, token@);
                }
            }
        }
        proof {
            lemma_entries_map_push(self.entries@, TokenEntry { token, record });
            assert(entries_map(self.entries@).insert(token@, record) =~= m0.insert(
                token@,
                record,
            ));
        }
        let ghost pre = self.entries@;
        self.entries.push(TokenEntry { token, record });
        proof {
            assert forall|p: int, q: int| 0 <= p < q < self.entries@.len()
                implies self.entries@[p].token@ != self.entries@[q].token@ by {
                if q < self.entries@.len() - 1 {
                    assert(pre[p].token@ != pre[q].token@);
                } else {
                    assert(!entries_map(pre).dom().contains(token@));
                    lemma_entries_map_dom(pre, pre[p].token@);
                }
            }
        }
    }

    /// Whether `token` is outstanding, without consuming it.
    pub fn contains_token(&self, token: &str) -> (r: bool)
        ensures
            r == self@.dom().contains(token@),
    {
        let owned: String = token.to_owned();
        let found = self.find_index(&owned);
        proof {
            lemma_entries_map_dom(self.entries@, token@);
        }
        match found {
            Some(_) => true,
            None => false,
        }
    }

    /// Issues a fresh random 64-character alphanumeric token owned by `user`.
    ///
    /// The token is not checked against outstanding ones: with 64 characters
    /// of entropy a collision is treated as negligible, and a colliding token
    /// would simply replace the older record.
    pub fn generate_token(&mut self, user: UserHandle, now: u64) -> (token: String)
        requires
            old(self).wf(),
        ensures
            final(self).wf(),
            token@.len() == 64,
            forall|i: int| 0 <= i < token@.len() ==> is_token_char(#[trigger] token@[i]),
            final(self)@ == spec_issue(old(self)@, token@, user, now),
    {
        let token = random_alphanumeric_64();
        let copy = token.clone();
        self.insert_record(copy, TokenRecord { user, issued_at: now });
        token
    }

    /// Redeems `token` at time `now`.
    ///
    /// Tokens are single-use: a present token is removed by the attempt, and
    /// its owner is returned only if the record is still within its age
    /// window. An unknown, already-consumed or expired token yields nothing.
    pub fn validate_token(&mut self, token: &str, now: u64) -> (r: Option<UserHandle>)
        requires
            old(self).wf(),
        ensures
            final(self).wf(),
            r == spec_validate(old(self)@, token@, now).0,
            final(self)@ == spec_validate(old(self)@, token@, now).1,
    {
        let owned: String = token.to_owned();
        match self.find_index(&owned) {
            None => {
                proof {
                    lemma_entries_map_dom(self.entries@, token@);
                }
                None
            }
            Some(i) => {
                proof {
                    lemma_entries_map_val(self.entries@, i as int);
                    lemma_entries_map_remove(self.entries@, i as int);
                }
                let record = self.entries[i].record;
                self.entries.remove(i);
                if now <= record.issued_at || now - record.issued_at <= TOKEN_MAX_AGE_MILLIS {
                    Some(record.user)
                } else {
                    None
                }
            }
        }
    }

    /// Sweeps out every expired record; live records are untouched.
    ///
    /// Meant to run on a fixed interval so tokens that are issued but never
    /// redeemed do not accumulate.
    pub fn cleanup(&mut self, now: u64)
        requires
            old(self).wf(),
        ensures
            final(self).wf(),
            final(self)@ == spec_cleanup(old(self)@, now),
    {
        let ghost m0 = self@;
        let mut i: usize = 0;
        while i < self.entries.len()
            invariant
                self.wf(),
                i <= self.entries@.len(),
                forall|j: int| 0 <= j < i ==> live_at(
                    #[trigger] self.entries@[j].record.issued_at,
                    now,
                ),
                forall|k: Seq<char>| #[trigger] self@.dom().contains(k) ==> m0.dom().contains(k)
                    && self@[k] == m0[k],
                forall|k: Seq<char>| m0.dom().contains(k) && live_at(m0[k].issued_at, now)
                    ==> #[trigger] self@.dom().contains(k),
            decreases self.entries@.len() - i,
        {
            let record = self.entries[i].record;
            if now <= record.issued_at || now - record.issued_at <= TOKEN_MAX_AGE_MILLIS {
                i += 1;
            } else {
                let ghost pre = self.entries@;
                let ghost k = pre[i as int].token@;
                proof {
                    assert(self@ == entries_map(pre));
                    lemma_entries_map_val(pre, i as int);
                    lemma_entries_map_remove(pre, i as int);
                    assert(entries_map(pre).dom().contains(k));
                    assert(m0.dom().contains(k) && m0[k] == pre[i as int].record);
                    assert(!live_at(m0[k].issued_at, now));
                }
                self.entries.remove(i);
                proof {
                    assert(self@ == entries_map(pre).remove(k));
                    assert forall|kk: Seq<char>|
                        m0.dom().contains(kk) && live_at(m0[kk].issued_at, now)
                        implies #[trigger] self@.dom().contains(kk) by {
                        assert(kk != k);
                        assert(entries_map(pre).dom().contains(kk));
                    }
                }
            }
        }
        proof {
            assert forall|k: Seq<char>| #[trigger] self@.dom().contains(k)
                implies live_at(self@[k].issued_at, now) by {
                lemma_entries_map_dom(self.entries@, k);
                let j = choose|j: int| 0 <= j < self.entries@.len()
                    && self.entries@[j].token@ == k;
                lemma_entries_map_val(self.entries@, j);
            }
            assert(self@ =~= spec_cleanup(m0, now));
        }
    }
}

/// Single use: once a validation attempt has consumed a token, every later
/// attempt with the same token string yields nothing and changes nothing,
/// whatever time it is made at.
pub proof fn lemma_token_single_use(
    m: Map<Seq<char>, TokenRecord>,
    token: Seq<char>,
    now1: u64,
    now2: u64,
)
    requires
        m.dom().contains(token),
    ensures
        spec_validate(spec_validate(m, token, now1).1, token, now2).0 is None,
        spec_validate(spec_validate(m, token, now1).1, token, now2).1
            == spec_validate(m, token, now1).1,
{
}

/// A freshly issued token validates to its owner on first use within the age
/// window, and that use removes it from the store.
pub proof fn lemma_issued_token_validates(
    m: Map<Seq<char>, TokenRecord>,
    token: Seq<char>,
    user: UserHandle,
    issued_at: u64,
    now: u64,
)
    requires
        live_at(issued_at, now),
    ensures
        spec_validate(spec_issue(m, token, user, issued_at), token, now).0 == Some(user),
        spec_validate(spec_issue(m, token, user, issued_at), token, now).1
            == m.insert(token, TokenRecord { user, issued_at }).remove(token),
{
}

/// Expiry: a token checked strictly after its age window has elapsed yields
/// nothing, even on first use.
pub proof fn lemma_token_expiry(m: Map<Seq<char>, TokenRecord>, token: Seq<char>, now: u64)
    requires
        m.dom().contains(token) ==> now > m[token].issued_at + TOKEN_MAX_AGE_MILLIS,
    ensures
        spec_validate(m, token, now).0 is None,
{
}

/// Cleanup keeps exactly the live records: a record survives the sweep if and
/// only if it was present and within its age window, and it survives
/// unchanged.
pub proof fn lemma_cleanup_exact(m: Map<Seq<char>, TokenRecord>, now: u64, token: Seq<char>)
    ensures
        spec_cleanup(m, now).dom().contains(token) <==> (m.dom().contains(token) && live_at(
            m[token].issued_at,
            now,
        )),
        spec_cleanup(m, now).dom().contains(token) ==> spec_cleanup(m, now)[token] == m[token],
{
}

/// Cleanup is idempotent: sweeping a second time at the same instant changes
/// nothing, and sweeping an empty store leaves it empty.
pub proof fn lemma_cleanup_idempotent(m: Map<Seq<char>, TokenRecord>, now: u64)
    ensures
        spec_cleanup(spec_cleanup(m, now), now) == spec_cleanup(m, now),
        spec_cleanup(Map::<Seq<char>, TokenRecord>::empty(), now)
            == Map::<Seq<char>, TokenRecord>::empty(),
{
    assert(spec_cleanup(spec_cleanup(m, now), now) =~= spec_cleanup(m, now));
    assert(spec_cleanup(Map::<Seq<char>, TokenRecord>::empty(), now)
        =~= Map::<Seq<char>, TokenRecord>::empty());
}

} // verus!

//! OAuth2 token cache keyed by (client id, token URL).
//!
//! The cache is a value owned by its user (the application keeps one behind
//! a lock for the whole process); reads are exact lookups.

use vstd::prelude::*;
use crate::model::{AuthSpec, AuthSpecView, OAuth2Token, OAuth2TokenView};
use crate::text::str_eq;

verus! {

/// Cache key: client id and token URL.
pub type TokenKey = (Seq<char>, Seq<char>);

/// Entries as a map; later entries win.
pub open spec fn token_map(s: Seq<(String, String, OAuth2Token)>) -> Map<TokenKey, OAuth2TokenView>
    decreases s.len(),
{
    if s.len() == 0 {
        Map::empty()
    } else {
        token_map(s.drop_last()).insert((s.last().0@, s.last().1@), s.last().2@)
    }
}

/// Key of an entry.
pub open spec fn key_of(e: (String, String, OAuth2Token)) -> TokenKey {
    (e.0@, e.1@)
}

/// No key occurs twice.
pub open spec fn distinct_token_keys(s: Seq<(String, String, OAuth2Token)>) -> bool {
    forall|i: int, j: int|
        0 <= i < s.len() && 0 <= j < s.len() && i != j ==> key_of(#[trigger] s[i]) != key_of(
            #[trigger] s[j],
        )
}

proof fn lemma_token_dom(s: Seq<(String, String, OAuth2Token)>, k: TokenKey)
    ensures
        token_map(s).contains_key(k) <==> exists|i: int| 0 <= i < s.len() && key_of(#[trigger] s[i]) == k,
    decreases s.len(),
{
    if s.len() > 0 {
        let t = s.drop_last();
        lemma_token_dom(t, k);
        if token_map(t).contains_key(k) {
            let i = choose|i: int| 0 <= i < t.len() && key_of(#[trigger] t[i]) == k;
            assert(s[i] == t[i]);
        }
        if exists|i: int| 0 <= i < s.len() && key_of(#[trigger] s[i]) == k {
            let i = choose|i: int| 0 <= i < s.len() && key_of(#[trigger] s[i]) == k;
            if i < s.len() - 1 {
                assert(t[i] == s[i]);
            }
        }
    }
}

proof fn lemma_token_value(s: Seq<(String, String, OAuth2Token)>, i: int)
    requires
        distinct_token_keys(s),
        0 <= i < s.len(),
    ensures
        token_map(s).contains_key(key_of(s[i])),
        token_map(s)[key_of(s[i])] == s[i].2@,
    decreases s.len(),
{
    if i < s.len() - 1 {
        let t = s.drop_last();
        assert(distinct_token_keys(t)) by {
            assert forall|a: int, b: int|
                0 <= a < t.len() && 0 <= b < t.len() && a != b implies key_of(#[trigger] t[a])
                != key_of(#[trigger] t[b]) by {
                assert(t[a] == s[a] && t[b] == s[b]);
            }
        }
        assert(t[i] == s[i]);
        lemma_token_value(t, i);
        assert(key_of(s.last()) != key_of(s[i]));
    }
}

/// Process-wide token cache.
pub struct TokenCache {
    entries: Vec<(String, String, OAuth2Token)>,
}

impl View for TokenCache {
    type V = Map<TokenKey, OAuth2TokenView>;

    closed spec fn view(&self) -> Map<TokenKey, OAuth2TokenView> {
        token_map(self.entries@)
    }
}

impl TokenCache {
    #[verifier::type_invariant]
    closed spec fn inv(self) -> bool {
        distinct_token_keys(self.entries@)
    }

    /// An empty cache.
    pub fn new() -> (r: TokenCache)
        ensures
            r@ == Map::<TokenKey, OAuth2TokenView>::empty(),
    {
        TokenCache { entries: Vec::new() }
    }

    fn find(&self, client_id: &str, token_url: &str) -> (r: Option<usize>)
        ensures
            match r {
                Some(i) => i < self.entries@.len() && key_of(self.entries@[i as int]) == (
                client_id@,
                token_url@,
                ),
                None => forall|i: int|
                    0 <= i < self.entries@.len() ==> key_of(#[trigger] self.entries@[i]) != (
                    client_id@,
                    token_url@,
                    ),
            },
    {
        let mut i: usize = 0;
        while i < self.entries.len()
            invariant
                i <= self.entries@.len(),
                forall|j: int|
                    0 <= j < i ==> key_of(#[trigger] self.entries@[j]) != (client_id@, token_url@),
            decreases self.entries.len() - i,
        {
            if str_eq(self.entries[i].0.as_str(), client_id) && str_eq(
                self.entries[i].1.as_str(),
                token_url,
            ) {
                return Some(i);
            }
            i = i + 1;
        }
        None
    }
}

/// The cached token for this client and token URL (it may have expired).
pub fn cached_token(cache: &TokenCache, client_id: &str, token_url: &str) -> (r: Option<OAuth2Token>)
    ensures
        match r {
            Some(t) => cache@.contains_key((client_id@, token_url@)) && t@ == cache@[(
            client_id@,
            token_url@,
            )],
            None => !cache@.contains_key((client_id@, token_url@)),
        },
{
    proof {
        use_type_invariant(cache);
        lemma_token_dom(cache.entries@, (client_id@, token_url@));
    }
    match cache.find(client_id, token_url) {
        Some(i) => {
            proof {
                lemma_token_value(cache.entries@, i as int);
            }
            Some(cache.entries[i].2.clone())
        },
        None => None,
    }
}

/// Store a token, replacing the one of the same client and token URL.
pub fn store_token(cache: &mut TokenCache, client_id: &str, token_url: &str, token: OAuth2Token)
    ensures
        final(cache)@ == old(cache)@.insert((client_id@, token_url@), token@),
{
    proof {
        use_type_invariant(&*cache);
    }
    let ghost old_s = cache.entries@;
    let ghost k = (client_id@, token_url@);
    match cache.find(client_id, token_url) {
        Some(i) => {
            let a = cache.entries[i].0.clone();
            let b = cache.entries[i].1.clone();
            let mut next: Vec<(String, String, OAuth2Token)> = Vec::new();
            let mut j: usize = 0;
            while j < cache.entries.len()
                invariant
                    old_s == cache.entries@,
                    i < old_s.len(),
                    j <= old_s.len(),
                    next@.len() == j,
                    key_of(old_s[i as int]) == k,
                    a@ == k.0,
                    b@ == k.1,
                    forall|t: int|
                        0 <= t < j ==> if t == i {
                            key_of(#[trigger] next@[t]) == k && next@[t].2@ == token@
                        } else {
                            next@[t] == old_s[t]
                        },
                decreases cache.entries.len() - j,
            {
                if j == i {
                    next.push((a.clone(), b.clone(), token.clone()));
                } else {
                    let e = (
                        cache.entries[j].0.clone(),
                        cache.entries[j].1.clone(),
                        cache.entries[j].2.clone(),
                    );
                    next.push(e);
                }
                j = j + 1;
            }
            proof {
                let n = next@;
                assert(distinct_token_keys(n)) by {
                    assert forall|x: int, y: int|
                        0 <= x < n.len() && 0 <= y < n.len() && x != y implies key_of(
                        #[trigger] n[x],
                    ) != key_of(#[trigger] n[y]) by {
                        assert(key_of(old_s[x]) != key_of(old_s[y]));
                    }
                }
                let want = token_map(old_s).insert(k, token@);
                assert forall|q: TokenKey| token_map(n).contains_key(q) <==> want.contains_key(q) by {
                    lemma_token_dom(n, q);
                    lemma_token_dom(old_s, q);
                    if token_map(n).contains_key(q) && q != k {
                        let t = choose|t: int| 0 <= t < n.len() && key_of(#[trigger] n[t]) == q;
                        assert(key_of(old_s[t]) == q);
                    }
                    if want.contains_key(q) {
                        if q == k {
                            assert(key_of(n[i as int]) == q);
                        } else {
                            let t = choose|t: int| 0 <= t < old_s.len() && key_of(#[trigger] old_s[t]) == q;
                            assert(key_of(n[t]) == q);
                        }
                    }
                }
                assert forall|q: TokenKey| #[trigger] token_map(n).contains_key(q) implies token_map(n)[q]
                    == want[q] by {
                    lemma_token_dom(n, q);
                    let t = choose|t: int| 0 <= t < n.len() && key_of(#[trigger] n[t]) == q;
                    lemma_token_value(n, t);
                    if t != i {
                        lemma_token_value(old_s, t);
                    }
                }
                assert(token_map(n) =~= want);
            }
            cache.entries = next;
        },
        None => {
            let a = client_id.to_owned();
            let b = token_url.to_owned();
            let mut next: Vec<(String, String, OAuth2Token)> = Vec::new();
            let mut j: usize = 0;
            while j < cache.entries.len()
                invariant
                    old_s == cache.entries@,
                    j <= old_s.len(),
                    next@ == old_s.take(j as int),
                decreases cache.entries.len() - j,
            {
                let e = (
                    cache.entries[j].0.clone(),
                    cache.entries[j].1.clone(),
                    cache.entries[j].2.clone(),
                );
                next.push(e);
                assert(old_s.take(j + 1) == old_s.take(j as int).push(old_s[j as int]));
                j = j + 1;
            }
            assert(old_s.take(old_s.len() as int) == old_s);
            next.push((a, b, token));
            proof {
                let n = next@;
                assert(distinct_token_keys(n)) by {
                    assert forall|x: int, y: int|
                        0 <= x < n.len() && 0 <= y < n.len() && x != y implies key_of(
                        #[trigger] n[x],
                    ) != key_of(#[trigger] n[y]) by {
                        if x < old_s.len() && y < old_s.len() {
                            assert(n[x] == old_s[x] && n[y] == old_s[y]);
                        } else if x < old_s.len() {
                            assert(n[x] == old_s[x]);
                        } else {
                            assert(n[y] == old_s[y]);
                        }
                    }
                }
                assert(n.drop_last() == old_s);
                assert(key_of(n.last()) == k);
            }
            cache.entries = next;
        },
    }
}

/// Forget the token of this client and token URL (the saved settings are
/// not touched).
pub fn clear_token(cache: &mut TokenCache, client_id: &str, token_url: &str)
    ensures
        final(cache)@ == old(cache)@.remove((client_id@, token_url@)),
{
    proof {
        use_type_invariant(&*cache);
    }
    let ghost old_s = cache.entries@;
    let ghost k = (client_id@, token_url@);
    match cache.find(client_id, token_url) {
        Some(i) => {
            let mut next: Vec<(String, String, OAuth2Token)> = Vec::new();
            let mut j: usize = 0;
            while j < cache.entries.len()
                invariant
                    old_s == cache.entries@,
                    i < old_s.len(),
                    j <= old_s.len(),
                    key_of(old_s[i as int]) == k,
                    next@.len() == if j <= i { j as int } else { j - 1 },
                    forall|t: int| 0 <= t < next@.len() ==> #[trigger] next@[t] == old_s[if t < i { t } else { t + 1 }],
                decreases cache.entries.len() - j,
            {
                if j != i {
                    let e = (
                        cache.entries[j].0.clone(),
                        cache.entries[j].1.clone(),
                        cache.entries[j].2.clone(),
                    );
                    next.push(e);
                }
                j = j + 1;
            }
            proof {
                let n = next@;
                assert(distinct_token_keys(n)) by {
                    assert forall|x: int, y: int|
                        0 <= x < n.len() && 0 <= y < n.len() && x != y implies key_of(
                        #[trigger] n[x],
                    ) != key_of(#[trigger] n[y]) by {
                        let ox = if x < i { x } else { x + 1 };
                        let oy = if y < i { y } else { y + 1 };
                        assert(key_of(old_s[ox]) != key_of(old_s[oy]));
                    }
                }
                let want = token_map(old_s).remove(k);
                assert forall|q: TokenKey| token_map(n).contains_key(q) <==> want.contains_key(q) by {
                    lemma_token_dom(n, q);
                    lemma_token_dom(old_s, q);
                    if token_map(n).contains_key(q) {
                        let t = choose|t: int| 0 <= t < n.len() && key_of(#[trigger] n[t]) == q;
                        let ot = if t < i { t } else { t + 1 };
                        assert(key_of(old_s[ot]) == q);
                        assert(ot != i);
                        assert(key_of(old_s[i as int]) != key_of(old_s[ot]));
                    }
                    if want.contains_key(q) {
                        let t = choose|t: int| 0 <= t < old_s.len() && key_of(#[trigger] old_s[t]) == q;
                        assert(t != i);
                        let nt = if t < i { t } else { t - 1 };
                        assert(key_of(n[nt]) == q);
                    }
                }
                assert forall|q: TokenKey| #[trigger] token_map(n).contains_key(q) implies token_map(n)[q]
                    == want[q] by {
                    lemma_token_dom(n, q);
                    let t = choose|t: int| 0 <= t < n.len() && key_of(#[trigger] n[t]) == q;
                    lemma_token_value(n, t);
                    let ot = if t < i { t } else { t + 1 };
                    lemma_token_value(old_s, ot);
                }
                assert(token_map(n) =~= want);
            }
            cache.entries = next;
        },
        None => {
            proof {
                lemma_token_dom(old_s, k);
                assert(token_map(old_s).remove(k) =~= token_map(old_s));
            }
        },
    }
}

/// Forget every token.
pub fn reset_cache(cache: &mut TokenCache)
    ensures
        final(cache)@ == Map::<TokenKey, OAuth2TokenView>::empty(),
{
    cache.entries = Vec::new();
}

/// Whether two tokens hold the same values.
pub fn same_token(a: &OAuth2Token, b: &OAuth2Token) -> (r: bool)
    ensures
        r == (a@ == b@),
{
    let refresh_same = match (&a.refresh_token, &b.refresh_token) {
        (Some(x), Some(y)) => str_eq(x.as_str(), y.as_str()),
        (None, None) => true,
        _ => false,
    };
    str_eq(a.access_token.as_str(), b.access_token.as_str()) && str_eq(
        a.token_type.as_str(),
        b.token_type.as_str(),
    ) && refresh_same && a.expires_at == b.expires_at
}

/// The token an OAuth2 auth should be saved with after a request: the cached
/// one of its client and token URL, when it differs from the token the auth
/// holds.
pub open spec fn refreshed_spec(cache: Map<TokenKey, OAuth2TokenView>, auth: AuthSpecView) -> Option<
    OAuth2TokenView,
> {
    match auth {
        AuthSpecView::OAuth2 { client_id, token_url, token, .. } => if cache.contains_key(
            (client_id, token_url),
        ) && token != Some(cache[(client_id, token_url)]) {
            Some(cache[(client_id, token_url)])
        } else {
            None
        },
        _ => None,
    }
}

/// After a request (which may have refreshed the token in the cache), the
/// token the auth should now hold, or `None` when it is up to date.
pub fn refreshed_token(cache: &TokenCache, auth: &AuthSpec) -> (r: Option<OAuth2Token>)
    ensures
        match r {
            Some(t) => refreshed_spec(cache@, auth@) == Some(t@),
            None => refreshed_spec(cache@, auth@) is None,
        },
{
    match auth {
        AuthSpec::OAuth2 { client_id, token_url, token, .. } => {
            match cached_token(cache, client_id.as_str(), token_url.as_str()) {
                Some(cached) => {
                    let same = match token {
                        Some(t) => same_token(t, &cached),
                        None => false,
                    };
                    if same {
                        None
                    } else {
                        Some(cached)
                    }
                },
                None => None,
            }
        },
        _ => None,
    }
}

/// Forget an OAuth2 auth's token, both the one it holds and the cached one
/// of its client and token URL; other kinds of auth are left alone.
pub fn clear_oauth2_token(auth: &mut AuthSpec, cache: &mut TokenCache)
    ensures
        match old(auth)@ {
            AuthSpecView::OAuth2 { client_id, client_secret, auth_url, token_url, scope, redirect_uri, .. } => {
                &&& final(auth)@ == AuthSpecView::OAuth2 {
                    client_id,
                    client_secret,
                    auth_url,
                    token_url,
                    scope,
                    redirect_uri,
                    token: None,
                }
                &&& final(cache)@ == old(cache)@.remove((client_id, token_url))
            },
            _ => final(auth)@ == old(auth)@ && final(cache)@ == old(cache)@,
        },
{
    match auth {
        AuthSpec::OAuth2 { token, client_id, token_url, .. } => {
            *token = None;
            clear_token(cache, client_id.as_str(), token_url.as_str());
        },
        _ => {},
    }
}

/// Reading a token back after storing it gives what was stored; other keys
/// are untouched.
pub proof fn law_store_then_read(m: Map<TokenKey, OAuth2TokenView>, k: TokenKey, t: OAuth2TokenView, other: TokenKey)
    ensures
        m.insert(k, t).contains_key(k) && m.insert(k, t)[k] == t,
        other != k ==> m.insert(k, t).contains_key(other) == m.contains_key(other),
        other != k && m.contains_key(other) ==> m.insert(k, t)[other] == m[other],
{
}

/// Storing twice under one key keeps the second token.
pub proof fn law_store_overwrites(m: Map<TokenKey, OAuth2TokenView>, k: TokenKey, t1: OAuth2TokenView, t2: OAuth2TokenView)
    ensures
        m.insert(k, t1).insert(k, t2) == m.insert(k, t2),
{
    assert(m.insert(k, t1).insert(k, t2) =~= m.insert(k, t2));
}

/// After clearing, the key reads as absent; other keys are untouched.
pub proof fn law_clear_then_absent(m: Map<TokenKey, OAuth2TokenView>, k: TokenKey, other: TokenKey)
    ensures
        !m.remove(k).contains_key(k),
        other != k ==> m.remove(k).contains_key(other) == m.contains_key(other),
{
}

} // verus!

//! The confirmation token service.
//!
//! A token is an unguessable opaque string bound to one subscriber. Issuing
//! draws a fresh random token and binds it; resolving maps a presented token
//! back to its subscriber. Resolution never consumes the token, so a
//! confirmation link can be visited any number of times. The store is viewed
//! as a map from token characters to subscriber identifier.

use vstd::prelude::*;

verus! {

/// How a token operation can fail.
#[derive(Clone, Copy, PartialEq, Eq, Structural, Debug)]
pub enum TokenError {
    /// The presented token is bound to nobody.
    InvalidTokenError,
    /// A freshly drawn token was already bound: an invariant violation that
    /// random drawing makes all but impossible.
    UnexpectedError,
}

/// Relies on uuid::Uuid::new_v4 and its hyphenated rendering: two draws
/// from the operating system's randomness joined into one 72-character
/// token, well over 128 bits of entropy. Nothing is assumed about which
/// token comes back.
#[verifier::external_body]
fn random_token() -> (r: String)
    ensures
        r@.len() == 72,
{
    let mut t = uuid::Uuid::new_v4().to_string();
    t.push_str(&uuid::Uuid::new_v4().to_string());
    t
}

/// One stored binding.
struct TokenBinding {
    token: String,
    subscriber_id: u64,
}

/// The map a sequence of bindings stands for.
spec fn token_map(s: Seq<TokenBinding>) -> Map<Seq<char>, u64>
    decreases s.len(),
{
    if s.len() == 0 {
        Map::empty()
    } else {
        token_map(s.drop_last()).insert(s.last().token@, s.last().subscriber_id)
    }
}

/// Stored tokens are pairwise distinct.
spec fn unique_tokens(s: Seq<TokenBinding>) -> bool {
    forall|i: int, j: int|
        #![trigger s[i], s[j]]
        0 <= i < j < s.len() ==> s[i].token@ != s[j].token@
}

/// A token is in the map exactly when some binding holds it.
proof fn lemma_token_map_dom(s: Seq<TokenBinding>, t: Seq<char>)
    ensures
        token_map(s).contains_key(t) <==> exists|i: int|
            0 <= i < s.len() && (#[trigger] s[i]).token@ == t,
    decreases s.len(),
{
    if s.len() > 0 {
        let sl = s.drop_last();
        lemma_token_map_dom(sl, t);
        if s.last().token@ == t {
            assert((#[trigger] s[s.len() - 1]).token@ == t);
        } else {
            if exists|i: int| 0 <= i < s.len() && (#[trigger] s[i]).token@ == t {
                let i = choose|i: int| 0 <= i < s.len() && (#[trigger] s[i]).token@ == t;
                assert(sl[i] == s[i]);
            }
            if token_map(sl).contains_key(t) {
                let i = choose|i: int| 0 <= i < sl.len() && (#[trigger] sl[i]).token@ == t;
                assert((#[trigger] s[i]).token@ == t);
            }
        }
    }
}

/// With distinct tokens, each binding decides the map at its token.
proof fn lemma_token_map_at(s: Seq<TokenBinding>, i: int)
    requires
        unique_tokens(s),
        0 <= i < s.len(),
    ensures
        token_map(s).contains_key(s[i].token@),
        token_map(s)[s[i].token@] == s[i].subscriber_id,
    decreases s.len(),
{
    let sl = s.drop_last();
    if i == s.len() - 1 {
    } else {
        assert(sl[i] == s[i]);
        lemma_token_map_at(sl, i);
        assert(s[i].token@ != s.last().token@);
    }
}

/// The store of token bindings.
pub struct TokenStore {
    bindings: Vec<TokenBinding>,
}

impl View for TokenStore {
    type V = Map<Seq<char>, u64>;

    closed spec fn view(&self) -> Map<Seq<char>, u64> {
        token_map(self.bindings@)
    }
}

impl TokenStore {
    /// The stored tokens are pairwise distinct.
    pub closed spec fn wf(self) -> bool {
        unique_tokens(self.bindings@)
    }

    /// Every bound subscriber identifier is below `n`.
    pub open spec fn bound_within(self, n: int) -> bool {
        forall|t: Seq<char>| #[trigger] self@.contains_key(t) ==> self@[t] < n
    }

    /// An empty store.
    pub fn new() -> (s: TokenStore)
        ensures
            s@ =~= Map::<Seq<char>, u64>::empty(),
            s.wf(),
    {
        TokenStore { bindings: Vec::new() }
    }

    /// The index of the binding holding `token`, if any.
    fn find(&self, token: &String) -> (r: Option<usize>)
        ensures
            match r {
                Some(i) => i < self.bindings@.len() && self.bindings@[i as int].token@ == token@,
                None => !self@.contains_key(token@),
            },
    {
        let n = self.bindings.len();
        for i in 0..n
            invariant
                n == self.bindings@.len(),
                forall|j: int| 0 <= j < i ==> (#[trigger] self.bindings@[j]).token@ != token@,
        {
            if self.bindings[i].token.eq(token) {
                return Some(i);
            }
        }
        proof {
            lemma_token_map_dom(self.bindings@, token@);
        }
        None
    }

    /// Whether `token` is bound to some subscriber.
    pub fn contains_token(&self, token: &String) -> (r: bool)
        ensures
            r == self@.contains_key(token@),
    {
        proof {
            lemma_token_map_dom(self.bindings@, token@);
        }
        match self.find(token) {
            Some(i) => {
                proof {
                    assert((#[trigger] self.bindings@[i as int]).token@ == token@);
                }
                true
            },
            None => false,
        }
    }

    /// Binds a given token to a subscriber: the deterministic half of
    /// `issue`, usable with any token however obtained.
    ///
    /// A token that is already bound is refused and the store is untouched;
    /// re-binding would break the resolution map.
    pub fn bind_token(&mut self, token: String, subscriber_id: u64) -> (r: Result<(), TokenError>)
        requires
            old(self).wf(),
        ensures
            final(self).wf(),
            old(self)@.contains_key(token@) ==> {
                &&& r matches Err(e) && e == TokenError::UnexpectedError
                &&& final(self)@ =~= old(self)@
            },
            !old(self)@.contains_key(token@) ==> {
                &&& r matches Ok(u) && u == ()
                &&& final(self)@ =~= old(self)@.insert(token@, subscriber_id)
            },
    {
        if self.contains_token(&token) {
            return Err(TokenError::UnexpectedError);
        }
        let ghost prev = self.bindings@;
        self.bindings.push(TokenBinding { token, subscriber_id });
        proof {
            assert(self.bindings@.drop_last() =~= prev);
            lemma_token_map_dom(prev, self.bindings@.last().token@);
            assert forall|i: int, j: int|
                #![trigger self.bindings@[i], self.bindings@[j]]
                0 <= i < j < self.bindings@.len() implies self.bindings@[i].token@
                != self.bindings@[j].token@ by {
                if j < prev.len() {
                    assert(prev[i].token@ != prev[j].token@);
                } else {
                    assert((#[trigger] prev[i]).token@ == self.bindings@[i].token@);
                }
            }
        }
        Ok(())
    }

    /// Draws a fresh random token, binds it to the subscriber and hands it
    /// back. Which token comes back is up to the randomness; whatever it is,
    /// on success it was unbound before and is bound to `subscriber_id` now.
    /// Failure is owed only to a collision with a bound token, so on a store
    /// holding no 72-character token the call must succeed.
    pub fn issue(&mut self, subscriber_id: u64) -> (r: Result<String, TokenError>)
        requires
            old(self).wf(),
        ensures
            final(self).wf(),
            r matches Ok(t) ==> {
                &&& !old(self)@.contains_key(t@)
                &&& final(self)@ =~= old(self)@.insert(t@, subscriber_id)
                &&& t@.len() == 72
            },
            r matches Err(e) ==> {
                &&& e == TokenError::UnexpectedError
                &&& final(self)@ =~= old(self)@
                &&& exists|t: Seq<char>| #[trigger] old(self)@.contains_key(t) && t.len() == 72
            },
    {
        let token = random_token();
        let handout = token.clone();
        match self.bind_token(token, subscriber_id) {
            Ok(()) => Ok(handout),
            Err(e) => {
                proof {
                    assert(old(self)@.contains_key(token@) && token@.len() == 72);
                }
                Err(e)
            },
        }
    }

    /// Maps a presented token back to its subscriber; an unbound token is
    /// `InvalidTokenError`. The token stays bound.
    pub fn resolve(&self, token: &String) -> (r: Result<u64, TokenError>)
        requires
            self.wf(),
        ensures
            self@.contains_key(token@) ==> (r matches Ok(id) && id == self@[token@]),
            !self@.contains_key(token@) ==> (r matches Err(e) && e == TokenError::InvalidTokenError),
    {
        proof {
            lemma_token_map_dom(self.bindings@, token@);
        }
        match self.find(token) {
            Some(i) => {
                proof {
                    lemma_token_map_at(self.bindings@, i as int);
                }
                Ok(self.bindings[i].subscriber_id)
            },
            None => Err(TokenError::InvalidTokenError),
        }
    }
}

} // verus!

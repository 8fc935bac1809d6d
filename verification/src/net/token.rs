//! Session token cache, so a returning player skips the browser entirely.

use vstd::prelude::*;

verus! {

/// The token of the last session. Read once at startup and written through on change.
pub struct TokenStore {
    cached: Option<String>,
}

impl TokenStore {
    /// The cached token, if there is one.
    pub closed spec fn token(&self) -> Option<Seq<char>> {
        match self.cached {
            Some(t) => Some(t@),
            None => None,
        }
    }

    /// Opens the cache with what was stored. An empty token is none.
    pub fn open(stored: Option<String>) -> (r: Self)
        ensures
            r.token() == (match stored {
                Some(t) => if t@.len() > 0 {
                    Some(t@)
                } else {
                    None
                },
                None => None,
            }),
    {
        match stored {
            Some(t) => if t.as_str().is_empty() {
                TokenStore { cached: None }
            } else {
                TokenStore { cached: Some(t) }
            },
            None => TokenStore { cached: None },
        }
    }

    /// The cached token.
    pub fn load(&self) -> (r: Option<String>)
        ensures
            match r {
                Some(t) => self.token() == Some(t@),
                None => self.token() is None,
            },
    {
        match &self.cached {
            Some(t) => Some(t.clone()),
            None => None,
        }
    }

    /// Remembers a token, which is also to be written down.
    pub fn store(&mut self, token: &str)
        ensures
            final(self).token() == Some(token@),
    {
        self.cached = Some(token.to_owned());
    }

    /// Forgets the token, so the next connection starts a fresh login.
    pub fn clear(&mut self)
        ensures
            final(self).token() is None,
    {
        self.cached = None;
    }
}

} // verus!

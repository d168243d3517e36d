//! The canonical claim set of a capability token, its error type, and the
//! two behaviours that token formats provide: minting a token from claims
//! and validating a raw token back into claims. Times are seconds since the
//! Unix epoch.

use vstd::prelude::*;

verus! {

/// The claims that a capability token carries.
#[derive(Debug)]
pub struct Claims {
    /// Subject: the user or agent.
    pub sub: String,
    /// The vault or workspace the subject wishes to access.
    pub vault: String,
    /// Ordered permissions, such as `read` or `write`.
    pub permissions: Vec<String>,
    /// Issued at.
    pub iat: u64,
    /// Expires at.
    pub exp: u64,
    /// Unique token identifier.
    pub jti: String,
}

/// A list of texts by their contents.
pub open spec fn texts(v: Seq<String>) -> Seq<Seq<char>> {
    v.map_values(|s: String| s@)
}

/// Whether two claim sets hold the same values.
pub open spec fn same_claims(a: Claims, b: Claims) -> bool {
    &&& a.sub@ == b.sub@
    &&& a.vault@ == b.vault@
    &&& texts(a.permissions@) == texts(b.permissions@)
    &&& a.iat == b.iat
    &&& a.exp == b.exp
    &&& a.jti@ == b.jti@
}

/// A copy of a list of texts.
pub fn copy_texts(v: &Vec<String>) -> (r: Vec<String>)
    ensures
        texts(r@) == texts(v@),
        r@.len() == v@.len(),
{
    let mut out: Vec<String> = Vec::new();
    let mut i: usize = 0;
    while i < v.len()
        invariant
            i <= v@.len(),
            out@.len() == i,
            forall|j: int| 0 <= j < i ==> #[trigger] out@[j]@ == v@[j]@,
        decreases v.len() - i,
    {
        out.push(v[i].clone());
        i = i + 1;
    }
    proof {
        assert(texts(out@) =~= texts(v@));
    }
    out
}

impl Claims {
    /// A copy of the claims.
    pub fn duplicate(&self) -> (c: Claims)
        ensures
            same_claims(c, *self),
    {
        Claims {
            sub: self.sub.clone(),
            vault: self.vault.clone(),
            permissions: copy_texts(&self.permissions),
            iat: self.iat,
            exp: self.exp,
            jti: self.jti.clone(),
        }
    }
}

/// The error of the capability layer: a message.
#[derive(Debug)]
pub struct Error {
    msg: String,
}

impl Error {
    /// An error with message `msg`.
    pub fn new(msg: &str) -> (e: Error)
        ensures
            e.message() == msg@,
    {
        Error { msg: msg.to_owned() }
    }

    /// The message, as a spec value.
    pub closed spec fn message(&self) -> Seq<char> {
        self.msg@
    }

    /// The message.
    pub fn to_text(&self) -> (s: String)
        ensures
            s@ == self.message(),
    {
        self.msg.clone()
    }
}

/// A token format: encodes claims into its wire form with a key, and
/// gives that wire form back.
pub trait CapabilityToken: Sized {
    /// A token for `claims`, signed with `key`.
    fn mint(claims: &Claims, key: &[u8]) -> Result<Self, Error>;

    /// The wire form of the token.
    fn as_str(&self) -> &str;
}

/// Checks a raw token's authenticity and meaning, and gives back its claims.
pub trait TokenValidator {
    /// The claims of `raw` when it is authentic and valid.
    fn validate(&self, raw: &str) -> Result<Claims, Error>;
}

} // verus!

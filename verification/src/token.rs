//! The claims of an access token and the rules by which one is issued and
//! accepted.

use vstd::prelude::*;
use vstd::string::StringSliceAdditionalSpecFns;
use vstd::utf8::{
    encode_utf8, is_char_boundary, length_of_first_scalar, pop_first_scalar, valid_utf8,
};

verus! {

/// The seconds for which a token is valid: 365 days.
pub const TOKEN_LIFETIME: usize = 31_536_000;

/// The claims of an access token.
#[derive(Debug)]
pub struct TokenClaims {
    /// Issuer
    pub iss: String,
    /// Subject (account ID)
    pub sub: String,
    /// Expires at (UNIX timestamp)
    pub exp: usize,
    /// Issued at (UNIX timestamp)
    pub iat: usize,
}

impl TokenClaims {
    /// The claims of a token issued to an account at the moment `now`,
    /// in seconds since the Unix epoch: it expires 365 days later.
    pub fn issued(account_id: String, now: usize) -> (claims: Self)
        requires
            now + TOKEN_LIFETIME <= usize::MAX,
        ensures
            claims.iss@ == "ferrite"@,
            claims.sub@ == account_id@,
            claims.iat == now,
            claims.exp == now + TOKEN_LIFETIME,
    {
        TokenClaims { iss: "ferrite".to_owned(), sub: account_id, exp: now + TOKEN_LIFETIME, iat: now }
    }

    /// The claims of a token issued at `now`, or `None` where its expiry
    /// is beyond what the machine can count.
    pub fn issue(account_id: String, now: usize) -> (r: Option<Self>)
        ensures
            r is Some <==> now + TOKEN_LIFETIME <= usize::MAX,
            r matches Some(claims) ==> claims.iss@ == "ferrite"@ && claims.sub@ == account_id@
                && claims.iat == now && claims.exp == now + TOKEN_LIFETIME,
    {
        if now <= usize::MAX - TOKEN_LIFETIME {
            Some(TokenClaims::issued(account_id, now))
        } else {
            None
        }
    }

    /// Whether the token outlives an invalidation of its account: it does
    /// unless the account invalidated its tokens at a moment after the
    /// token was issued.
    pub fn survives(&self, invalidated_at: Option<usize>) -> (r: bool)
        ensures
            r == match invalidated_at {
                Some(moment) => self.iat >= moment,
                None => true,
            },
    {
        match invalidated_at {
            Some(moment) => !(self.iat < moment),
            None => true,
        }
    }
}

/// The bytes of `text` start with the bytes of `prefix`.
pub open spec fn starts_with(text: Seq<char>, prefix: Seq<char>) -> bool {
    let t = encode_utf8(text);
    let p = encode_utf8(prefix);
    p.len() <= t.len() && t.subrange(0, p.len() as int) == p
}

/// Whether the bytes of `text` start with the bytes of `prefix`.
pub fn text_starts_with(text: &str, prefix: &str) -> (r: bool)
    ensures
        r == starts_with(text@, prefix@),
{
    let t = text.as_bytes();
    let p = prefix.as_bytes();
    if p.len() > t.len() {
        return false;
    }
    let ghost head = t@.subrange(0, p@.len() as int);
    let mut i: usize = 0;
    while i < p.len()
        invariant
            i <= p.len(),
            p.len() <= t.len(),
            t@ == encode_utf8(text@),
            p@ == encode_utf8(prefix@),
            head == t@.subrange(0, p@.len() as int),
            forall|j: int| 0 <= j < i ==> head[j] == p@[j],
        decreases p.len() - i,
    {
        if t[i] != p[i] {
            assert(head[i as int] != p@[i as int]);
            return false;
        }
        assert(head[i as int] == t@[i as int]);
        i = i + 1;
    }
    assert(head =~= p@);
    true
}

/// Where the start of an encoded text is an encoded text of its own, a
/// character starts right after it.
pub proof fn lemma_boundary_after_prefix(bytes: Seq<u8>, k: int)
    requires
        valid_utf8(bytes),
        0 <= k <= bytes.len(),
        valid_utf8(bytes.subrange(0, k)),
    ensures
        is_char_boundary(bytes, k),
    decreases bytes.len(),
{
    if k > 0 {
        let head = bytes.subrange(0, k);
        let width = length_of_first_scalar(bytes);
        assert(head[0] == bytes[0]);
        assert(length_of_first_scalar(head) == width);
        assert(width <= k);
        assert(pop_first_scalar(head) =~= pop_first_scalar(bytes).subrange(0, k - width));
        lemma_boundary_after_prefix(pop_first_scalar(bytes), k - width);
    }
}

/// The token of an `Authorization` header: what follows `Bearer `, where
/// the header starts with it.
pub fn bearer_token(header: &str) -> (r: Option<&str>)
    ensures
        r is Some <==> starts_with(header@, "Bearer "@),
        r matches Some(token) ==> encode_utf8(header@) == encode_utf8("Bearer "@) + encode_utf8(
            token@,
        ),
{
    let prefix = "Bearer ";
    if !text_starts_with(header, prefix) {
        return None;
    }
    let n = prefix.as_bytes().len();
    proof {
        vstd::utf8::encode_utf8_valid_utf8(header@);
        vstd::utf8::encode_utf8_valid_utf8(prefix@);
        lemma_boundary_after_prefix(encode_utf8(header@), n as int);
    }
    let (_, token) = header.split_at(n);
    assert(encode_utf8(header@) =~= encode_utf8("Bearer "@) + encode_utf8(token@));
    Some(token)
}

} // verus!

//! Session identity: a pseudonym for a client that is stable for one day
//! and from which neither the address nor the user agent can be read back.
//!
//! The identifier is the digest of a fixed salt, the calendar date, a
//! secret code that is replaced once it is a day old, the client's address
//! and its user agent.

use base64::Engine;
use http::{HeaderMap, HeaderValue};
use sha2::{Digest, Sha256};
use vstd::prelude::*;
use vstd::rwlock::{RwLock, RwLockPredicate};
use vstd::string::StringSliceAdditionalSpecFns;
use vstd::utf8::encode_utf8;
use crate::clock::{now_millis, today};

verus! {

#[verifier::external_type_specification]
#[verifier::external_body]
#[verifier::reject_recursive_types(T)]
pub struct ExHeaderMap<T>(HeaderMap<T>);

#[verifier::external_type_specification]
#[verifier::external_body]
pub struct ExHeaderValue(HeaderValue);

#[verifier::external_type_specification]
#[verifier::external_body]
pub struct ExRandomError(getrandom::Error);

/// The text of the header `name` in `headers`: of its first value, where
/// the header is present and that value is made of visible ASCII.
pub uninterp spec fn header_text(headers: HeaderMap<HeaderValue>, name: Seq<char>) -> Option<
    Seq<char>,
>;

/// The SHA-256 digest of a message.
pub uninterp spec fn sha256(message: Seq<u8>) -> Seq<u8>;

/// The base64 text of some bytes, in the standard alphabet, without padding.
pub uninterp spec fn base64_no_pad(bytes: Seq<u8>) -> Seq<char>;

/// `HeaderMap::get` with a name given as text, then `HeaderValue::to_str`:
/// the text of the header, or `None` where `get` finds no value or
/// `to_str` refuses the value it found.
#[verifier::external_body]
pub(crate) fn header_as_text(headers: &HeaderMap<HeaderValue>, name: &str) -> (r: Option<String>)
    ensures
        r is Some <==> header_text(*headers, name@) is Some,
        r matches Some(text) ==> header_text(*headers, name@) == Some(text@),
{
    headers.get(name).and_then(|value| value.to_str().ok()).map(|text| text.to_string())
}

/// `Sha256::digest`: the digest of the message, which has 32 bytes.
#[verifier::external_body]
pub(crate) fn sha256_digest(message: &Vec<u8>) -> (digest: Vec<u8>)
    ensures
        digest@ == sha256(message@),
        digest@.len() == 32,
{
    Sha256::digest(message).to_vec()
}

/// `STANDARD_NO_PAD.encode`: the base64 text of the bytes. The outside
/// function does not return where the length of the text would overflow;
/// the bound keeps far from that.
#[verifier::external_body]
pub(crate) fn base64_encode(bytes: &Vec<u8>) -> (text: String)
    requires
        bytes@.len() <= 1024,
    ensures
        text@ == base64_no_pad(bytes@),
{
    base64::engine::general_purpose::STANDARD_NO_PAD.encode(bytes)
}

/// `getrandom::getrandom` on a buffer of `len` bytes: on success, `len`
/// bytes from the system's random source. Nothing is claimed of what they
/// are.
#[verifier::external_body]
pub(crate) fn random_bytes(len: usize) -> (r: Result<Vec<u8>, getrandom::Error>)
    ensures
        r matches Ok(bytes) ==> bytes@.len() == len,
{
    let mut bytes = vec![0u8; len];
    getrandom::getrandom(&mut bytes).map(|_| bytes)
}

/// The bytes of the secret of a day code.
pub const SECRET_LEN: usize = 32;

/// Why no session identifier could be derived.
#[derive(Clone, Copy, Debug, PartialEq, Eq, Structural)]
pub enum SessionError {
    /// The system's random source gave no bytes for a new day code.
    RandomSourceFailed,
}

/// The milliseconds after which a day code is replaced.
pub const DAY_MILLIS: i64 = 86_400_000;

/// The day code: a random secret and the moment it was made, in
/// milliseconds since the Unix epoch.
#[derive(Debug)]
pub struct TodayCode {
    pub last_updated: i64,
    pub code: String,
}

/// A day code as contracts see it.
pub struct TodayCodeView {
    pub last_updated: i64,
    pub code: Seq<char>,
}

/// The text is the base64 text of a secret of 32 bytes.
pub open spec fn is_secret_code(code: Seq<char>) -> bool {
    exists|secret: Seq<u8>| secret.len() == 32 && code == #[trigger] base64_no_pad(secret)
}

impl TodayCodeView {
    /// The code is more than a day old at the moment `now`.
    pub open spec fn stale_at(self, now: i64) -> bool {
        self.last_updated + DAY_MILLIS < now
    }
}

impl View for TodayCode {
    type V = TodayCodeView;

    open spec fn view(&self) -> TodayCodeView {
        TodayCodeView { last_updated: self.last_updated, code: self.code@ }
    }
}

impl Clone for TodayCode {
    fn clone(&self) -> (r: Self)
        ensures
            r@ == self@,
    {
        TodayCode { last_updated: self.last_updated, code: self.code.clone() }
    }
}

impl TodayCode {
    /// Whether the code is more than a day old at the moment `now`.
    pub fn is_stale(&self, now: i64) -> (r: bool)
        ensures
            r == self@.stale_at(now),
    {
        match self.last_updated.checked_add(DAY_MILLIS) {
            Some(expiry) => expiry < now,
            None => false,
        }
    }

    /// The day code made at `now` from 32 secret bytes.
    pub fn from_secret(secret: &Vec<u8>, now: i64) -> (r: Self)
        requires
            secret@.len() == 32,
        ensures
            r@ == (TodayCodeView { last_updated: now, code: base64_no_pad(secret@) }),
    {
        TodayCode { last_updated: now, code: base64_encode(secret) }
    }

    /// What becomes of the answer of the random source at `now`: a day code
    /// made of the secret where it gave one, and `RandomSourceFailed` where
    /// it gave none.
    pub fn from_drawn(drawn: Result<Vec<u8>, getrandom::Error>, now: i64) -> (r: Result<
        Self,
        SessionError,
    >)
        requires
            drawn matches Ok(secret) ==> secret@.len() == 32,
        ensures
            match drawn {
                Ok(secret) => r is Ok && r->Ok_0@ == (TodayCodeView {
                    last_updated: now,
                    code: base64_no_pad(secret@),
                }),
                Err(_) => r is Err && r->Err_0 == SessionError::RandomSourceFailed,
            },
    {
        match drawn {
            Ok(secret) => Ok(TodayCode::from_secret(&secret, now)),
            Err(_) => Err(SessionError::RandomSourceFailed),
        }
    }

    /// What a reader takes at `now`: the code, as long as it is at most a
    /// day old, and nothing once it is stale.
    pub fn current(&self, now: i64) -> (r: Option<TodayCode>)
        ensures
            match r {
                Some(code) => !self@.stale_at(now) && code@ == self@,
                None => self@.stale_at(now),
            },
    {
        if self.is_stale(now) {
            None
        } else {
            Some(self.clone())
        }
    }

    /// What the one who holds the code for itself does at `now`. A code
    /// that is at most a day old stays as it is and is handed out. A
    /// stale code is replaced by one made at `now` from the random source,
    /// and that one is handed out; where the source fails, the stale code
    /// stays and the failure is reported.
    pub fn rotate(&mut self, now: i64) -> (r: Result<TodayCode, SessionError>)
        ensures
            !old(self)@.stale_at(now) ==> {
                &&& final(self)@ == old(self)@
                &&& r is Ok
                &&& r->Ok_0@ == old(self)@
            },
            old(self)@.stale_at(now) && r is Ok ==> {
                &&& final(self)@ == r->Ok_0@
                &&& final(self)@.last_updated == now
                &&& is_secret_code(final(self)@.code)
            },
            r is Err ==> {
                &&& final(self)@ == old(self)@
                &&& old(self)@.stale_at(now)
                &&& r->Err_0 == SessionError::RandomSourceFailed
            },
    {
        if !self.is_stale(now) {
            return Ok(self.clone());
        }
        match TodayCode::from_drawn(random_bytes(SECRET_LEN), now) {
            Ok(fresh) => {
                let code = fresh.clone();
                *self = fresh;
                Ok(code)
            },
            Err(e) => Err(e),
        }
    }

    /// A new day code made at `now` from the system's random source.
    pub fn new(now: i64) -> (r: Result<Self, SessionError>)
        ensures
            r matches Ok(code) ==> code@.last_updated == now && is_secret_code(code@.code),
            r matches Err(e) ==> e == SessionError::RandomSourceFailed,
    {
        TodayCode::from_drawn(random_bytes(SECRET_LEN), now)
    }
}

/// What the lock promises of the day code it holds: it is the code that
/// the lock started with, or one that was made of a secret more than a day
/// after that one.
pub struct Rotation {
    pub first: TodayCodeView,
}

impl Rotation {
    /// The lock may hold the code.
    pub open spec fn admits(self, code: TodayCodeView) -> bool {
        code == self.first || (code.last_updated > self.first.last_updated + DAY_MILLIS
            && is_secret_code(code.code))
    }
}

impl RwLockPredicate<TodayCode> for Rotation {
    open spec fn inv(self, code: TodayCode) -> bool {
        self.admits(code@)
    }
}

/// The day code shared by all who derive session identifiers, behind a
/// lock that many may read and one may write.
pub struct DayCodes {
    lock: RwLock<TodayCode, Rotation>,
}

impl DayCodes {
    /// The code that the lock started with.
    pub closed spec fn first(&self) -> TodayCodeView {
        self.lock.pred().first
    }

    /// The lock may hold the code: it is the first, or one that was made
    /// of a secret more than a day after the first.
    pub open spec fn admits(&self, code: TodayCodeView) -> bool {
        (Rotation { first: self.first() }).admits(code)
    }

    /// A shared day code that starts with `code`.
    pub fn with_code(code: TodayCode) -> (r: Self)
        ensures
            r.first() == code@,
    {
        let ghost rotation = Rotation { first: code@ };
        DayCodes { lock: RwLock::<TodayCode, Rotation>::new(code, Ghost(rotation)) }
    }

    /// A shared day code that starts with a code made at `now` from the
    /// system's random source.
    pub fn new(now: i64) -> (r: Result<Self, SessionError>)
        ensures
            r matches Ok(codes) ==> codes.first().last_updated == now && is_secret_code(
                codes.first().code,
            ),
            r matches Err(e) ==> e == SessionError::RandomSourceFailed,
    {
        match TodayCode::new(now) {
            Ok(code) => Ok(DayCodes::with_code(code)),
            Err(e) => Err(e),
        }
    }

    /// The day code to use at `now`. Readers share the lock and take the
    /// code as long as it is at most a day old, as `TodayCode::current`
    /// says. One that finds it stale gives up its share, takes the lock
    /// for itself and looks again, as another may have replaced the code
    /// meanwhile: `TodayCode::rotate` keeps a code that is not stale and
    /// asks the random source for a new one only where it still is.
    ///
    /// The code handed out is one that the lock may hold, and is never
    /// more than a day old at `now`. As long as the first code is not
    /// stale the random source is not asked, and the call succeeds. What
    /// the lock holds while others use it cannot be named here; what
    /// becomes of the code that one caller holds is stated at `current`
    /// and `rotate`.
    pub fn get_today_code(&self, now: i64) -> (r: Result<TodayCode, SessionError>)
        ensures
            r matches Ok(code) ==> self.admits(code@) && !code@.stale_at(now),
            !self.first().stale_at(now) ==> r is Ok,
            r matches Err(e) ==> e == SessionError::RandomSourceFailed,
    {
        let reader = self.lock.acquire_read();
        let taken = reader.borrow().current(now);
        reader.release_read();
        match taken {
            Some(code) => Ok(code),
            None => {
                let (held, writer) = self.lock.acquire_write();
                let mut held = held;
                let r = held.rotate(now);
                writer.release_write(held);
                r
            },
        }
    }
}

/// A session identifier.
#[derive(Debug)]
pub struct SessionId(pub String);

impl View for SessionId {
    type V = Seq<char>;

    open spec fn view(&self) -> Seq<char> {
        self.0@
    }
}

/// The message that is digested: the salt, the date, the day code, the
/// client's address and the user agent, one after the other.
pub open spec fn session_message(
    today: Seq<char>,
    code: Seq<char>,
    ip: Seq<char>,
    user_agent: Seq<char>,
) -> Seq<u8> {
    encode_utf8("basalytics"@) + encode_utf8(today) + encode_utf8(code) + encode_utf8(ip)
        + encode_utf8(user_agent)
}

/// The session identifier: the base64 text of the digest of the message.
pub open spec fn session_id_of(
    today: Seq<char>,
    code: Seq<char>,
    ip: Seq<char>,
    user_agent: Seq<char>,
) -> Seq<char> {
    base64_no_pad(sha256(session_message(today, code, ip, user_agent)))
}

/// The client's address: the text of the forwarded-address header where
/// one is configured and the request carries it, else the peer's address.
pub open spec fn client_ip(
    headers: HeaderMap<HeaderValue>,
    forwarded_ip_header: Option<Seq<char>>,
    peer_ip: Seq<char>,
) -> Seq<char> {
    match forwarded_ip_header {
        Some(name) => match header_text(headers, name) {
            Some(ip) => ip,
            None => peer_ip,
        },
        None => peer_ip,
    }
}

/// The client's user agent: the text of the `User-Agent` header, or the
/// empty text where the request carries none.
pub open spec fn user_agent_of(headers: HeaderMap<HeaderValue>) -> Seq<char> {
    match header_text(headers, "User-Agent"@) {
        Some(agent) => agent,
        None => Seq::empty(),
    }
}

/// The configured header name as contracts see it.
pub open spec fn header_name(forwarded_ip_header: Option<String>) -> Option<Seq<char>> {
    match forwarded_ip_header {
        Some(name) => Some(name@),
        None => None,
    }
}

/// The session identifier of a client with the address `ip` and the user
/// agent `user_agent`, on the date `today` and under the day code `code`.
pub fn derive_session_id(today: &str, code: &str, ip: &str, user_agent: &str) -> (id: SessionId)
    ensures
        id@ == session_id_of(today@, code@, ip@, user_agent@),
{
    let mut message: Vec<u8> = Vec::new();
    message.extend_from_slice("basalytics".as_bytes());
    message.extend_from_slice(today.as_bytes());
    message.extend_from_slice(code.as_bytes());
    message.extend_from_slice(ip.as_bytes());
    message.extend_from_slice(user_agent.as_bytes());
    assert(message@ =~= session_message(today@, code@, ip@, user_agent@));
    let digest = sha256_digest(&message);
    SessionId(base64_encode(&digest))
}

/// The session identifier of a request on the date `today` and under the
/// day code `code`: of the client's address, which is the forwarded one
/// where a header is configured for it and present, and of its user agent.
pub fn session_id_for(
    today: &str,
    code: &str,
    peer_ip: &str,
    headers: &HeaderMap<HeaderValue>,
    forwarded_ip_header: &Option<String>,
) -> (id: SessionId)
    ensures
        id@ == session_id_of(
            today@,
            code@,
            client_ip(*headers, header_name(*forwarded_ip_header), peer_ip@),
            user_agent_of(*headers),
        ),
{
    let forwarded = match forwarded_ip_header {
        Some(name) => header_as_text(headers, name.as_str()),
        None => None,
    };
    let agent = header_as_text(headers, "User-Agent");
    let ip: &str = match &forwarded {
        Some(ip) => ip.as_str(),
        None => peer_ip,
    };
    let user_agent: &str = match &agent {
        Some(agent) => agent.as_str(),
        None => "",
    };
    proof {
        reveal_strlit("");
        assert(""@ =~= Seq::<char>::empty());
    }
    derive_session_id(today, code, ip, user_agent)
}

/// The session identifier of a request at the moment `now`, on the date
/// `today`: under the day code of that moment, which is replaced first
/// where it is stale. As long as the first day code is not stale, the call
/// succeeds.
pub fn session_id_at(
    codes: &DayCodes,
    now: i64,
    today: &str,
    peer_ip: &str,
    headers: &HeaderMap<HeaderValue>,
    forwarded_ip_header: &Option<String>,
) -> (r: Result<SessionId, SessionError>)
    ensures
        r matches Ok(id) ==> exists|code: TodayCodeView| #[trigger]
            codes.admits(code) && !code.stale_at(now) && id@ == session_id_of(
                today@,
                code.code,
                client_ip(*headers, header_name(*forwarded_ip_header), peer_ip@),
                user_agent_of(*headers),
            ),
        !codes.first().stale_at(now) ==> r is Ok,
        r matches Err(e) ==> e == SessionError::RandomSourceFailed && codes.first().stale_at(now),
{
    match codes.get_today_code(now) {
        Ok(code) => {
            let id = session_id_for(today, code.code.as_str(), peer_ip, headers, forwarded_ip_header);
            assert(codes.admits(code@));
            Ok(id)
        },
        Err(e) => Err(e),
    }
}

/// The session identifier of a request now: on the date and at the moment
/// that the clock gives, under the day code of that moment, which is
/// replaced first where it is stale. It fails only at a moment at which
/// the first day code is stale and the random source gives no new one.
pub fn get_session_id(
    codes: &DayCodes,
    peer_ip: &str,
    headers: &HeaderMap<HeaderValue>,
    forwarded_ip_header: &Option<String>,
) -> (r: Result<SessionId, SessionError>)
    ensures
        r matches Ok(id) ==> exists|today: Seq<char>, now: i64, code: TodayCodeView|
            #![trigger code.stale_at(now), session_id_of(
                today,
                code.code,
                client_ip(*headers, header_name(*forwarded_ip_header), peer_ip@),
                user_agent_of(*headers),
            )]
            codes.admits(code) && !code.stale_at(now) && id@ == session_id_of(
                today,
                code.code,
                client_ip(*headers, header_name(*forwarded_ip_header), peer_ip@),
                user_agent_of(*headers),
            ),
        r matches Err(e) ==> e == SessionError::RandomSourceFailed && exists|now: i64| #[trigger]
            codes.first().stale_at(now),
{
    let date = today(DATE_FORMAT);
    let now = now_millis();
    let r = session_id_at(codes, now, date.as_str(), peer_ip, headers, forwarded_ip_header);
    proof {
        if r is Ok {
            let code = choose|code: TodayCodeView| #[trigger]
                codes.admits(code) && !code.stale_at(now) && r->Ok_0@ == session_id_of(
                    date@,
                    code.code,
                    client_ip(*headers, header_name(*forwarded_ip_header), peer_ip@),
                    user_agent_of(*headers),
                );
            assert(!code.stale_at(now));
        } else {
            assert(codes.first().stale_at(now));
        }
    }
    r
}

/// The format in which the date enters the session identifier: year,
/// month and day, so that identifiers change with the calendar day.
pub const DATE_FORMAT: &'static str = "%Y-%m-%d";

} // verus!

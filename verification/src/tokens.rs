//! Stateless access / refresh tokens: claims signed with an
//! HMAC-SHA256 key derived from a process-wide secret, verified and
//! classified against the user relation, with per-user generation
//! counters for revocation. The caller supplies the clock reading and
//! the configured lifetimes; reading the clock itself stands at the
//! end of this module.

use vstd::prelude::*;
use vstd::string::*;
use std::collections::BTreeMap;
use hmac::Hmac;
use hmac::Mac;
use jwt::SignWithKey;
use jwt::VerifyWithKey;
use serde_json::Value;
use sha2::Sha256;
use crate::models::user::User;
use crate::responses::ErrorResponse;
use crate::store::Store;

verus! {

/// Whether a token opens the API (short-lived) or only refreshes the
/// token pair (long-lived).
#[derive(Clone, Copy, PartialEq, Eq, Structural)]
pub enum TokenType {
    Access,
    Refresh,
}

/// The claims carried by a token.
#[derive(Clone, Copy, PartialEq, Eq, Structural)]
pub struct TokenClaims {
    pub iat: u64,
    pub exp: u64,
    pub sub: i32,
    pub gen: i32,
    pub typ: TokenType,
}

/// Why a token was rejected.
#[derive(Clone, Copy, Debug)]
pub enum TokenError {
    NoToken,
    MalformedToken,
    IatInTheFuture,
    Expired,
    Revoked,
    InvalidSubject,
    InvalidType,
}

/// The signed compact serialization of the claims under the given
/// secret; a function of the claims and the secret alone.
pub uninterp spec fn token_of(
    iat: u64,
    exp: u64,
    sub: i32,
    gen: i32,
    access: bool,
    secret: Seq<char>,
) -> Seq<char>;

/// Relies on the jwt crate's SignWithKey over an HMAC-SHA256 key built
/// by hmac's Mac::new_from_slice: the compact serialization of exactly
/// these five claims, signed with the secret. Signing cannot fail
/// here: the HMAC key accepts any slice, the header is derived from
/// the key's own algorithm, and serializing this claim map never
/// errors — so a token is always produced.
#[verifier::external_body]
fn sign_claims(claims: &TokenClaims, secret: &str) -> (r: Option<String>)
    ensures
        r is Some,
        r matches Some(t) ==> t@ == token_of(
            claims.iat,
            claims.exp,
            claims.sub,
            claims.gen,
            claims.typ is Access,
            secret@,
        ),
{
    let key: Hmac<Sha256> = Hmac::new_from_slice(secret.as_bytes()).ok()?;
    let typ = match claims.typ {
        TokenType::Access => "access",
        TokenType::Refresh => "refresh",
    };
    let mut map = BTreeMap::new();
    map.insert("iat", Value::from(claims.iat));
    map.insert("exp", Value::from(claims.exp));
    map.insert("sub", Value::from(claims.sub));
    map.insert("gen", Value::from(claims.gen));
    map.insert("typ", Value::from(typ));
    map.sign_with_key(&key).ok()
}

/// What signature verification answers for a token string under a
/// secret: the claim fields `(iat, exp, sub, gen, is-access)` when the
/// string is a validly signed claim envelope, `None` otherwise; a
/// function of the two strings alone.
pub uninterp spec fn verified_claims_of(token: Seq<char>, secret: Seq<char>) -> Option<
    (u64, u64, i32, i32, bool),
>;

/// The claims assembled from the field tuple verification answers.
pub open spec fn claims_from_parts(p: (u64, u64, i32, i32, bool)) -> TokenClaims {
    TokenClaims {
        iat: p.0,
        exp: p.1,
        sub: p.2,
        gen: p.3,
        typ: if p.4 {
            TokenType::Access
        } else {
            TokenType::Refresh
        },
    }
}

/// Relies on the jwt crate's VerifyWithKey over the same HMAC-SHA256
/// key: the answer is exactly what verification decides for this
/// token and secret, and a token that is the signed serialization of
/// some claims under this secret is accepted and yields exactly those
/// claims back.
#[verifier::external_body]
fn verify_token_string(token: &str, secret: &str) -> (r: Option<TokenClaims>)
    ensures
        r is Some <==> verified_claims_of(token@, secret@) is Some,
        r matches Some(c) ==> verified_claims_of(token@, secret@) == Some(
            (c.iat, c.exp, c.sub, c.gen, c.typ is Access),
        ),
        forall|c: TokenClaims|
            token@ == token_of(c.iat, c.exp, c.sub, c.gen, c.typ is Access, secret@) ==> r == Some(
                c,
            ),
{
    let key: Hmac<Sha256> = Hmac::new_from_slice(secret.as_bytes()).ok()?;
    let map: BTreeMap<String, Value> = token.verify_with_key(&key).ok()?;
    let iat = map.get("iat")?.as_u64()?;
    let exp = map.get("exp")?.as_u64()?;
    let sub = i32::try_from(map.get("sub")?.as_i64()?).ok()?;
    let gen = i32::try_from(map.get("gen")?.as_i64()?).ok()?;
    let typ = match map.get("typ")?.as_str()? {
        "access" => TokenType::Access,
        "refresh" => TokenType::Refresh,
        _ => {
            return None;
        },
    };
    Some(TokenClaims { iat, exp, sub, gen, typ })
}

/// Issues a token for the user: issued at the given clock reading,
/// expiring after the lifetime configured for its kind, bound to the
/// user's current generation. A token is always produced.
pub fn generate_token(
    user: &User,
    token_type: TokenType,
    now: u64,
    access_ttl: u64,
    refresh_ttl: u64,
    secret: &str,
) -> (r: Option<String>)
    requires
        token_type is Access ==> now + access_ttl <= u64::MAX,
        token_type is Refresh ==> now + refresh_ttl <= u64::MAX,
    ensures
        r matches Some(t) && t@ == token_of(
            now,
            (now + if token_type is Access {
                access_ttl
            } else {
                refresh_ttl
            }) as u64,
            user.id,
            user.token_generation,
            token_type is Access,
            secret@,
        ),
{
    let ttl: u64 = match token_type {
        TokenType::Access => access_ttl,
        TokenType::Refresh => refresh_ttl,
    };
    let claims = TokenClaims {
        iat: now,
        exp: now + ttl,
        sub: user.id,
        gen: user.token_generation,
        typ: token_type,
    };
    sign_claims(&claims, secret)
}

/// The fixed classification order for verified claims: wrong kind,
/// then clock checks, then subject lookup, then generation check; an
/// earlier failure shadows later ones.
pub open spec fn spec_check_claims(st: Store, c: TokenClaims, expected: TokenType, now: u64) -> Result<
    User,
    TokenError,
> {
    if c.typ != expected {
        Err(TokenError::InvalidType)
    } else if c.iat > now {
        Err(TokenError::IatInTheFuture)
    } else if c.exp <= now {
        Err(TokenError::Expired)
    } else {
        match st.spec_user_with_id(c.sub) {
            Option::None => Err(TokenError::InvalidSubject),
            Option::Some(u) => if c.gen != u.token_generation {
                Err(TokenError::Revoked)
            } else {
                Ok(u)
            },
        }
    }
}

/// Classifies already-decoded claims against the expected kind, the
/// clock, and the user relation.
pub fn check_claims(store: &Store, claims: &TokenClaims, expected_type: TokenType, now: u64) -> (r:
    Result<User, TokenError>)
    ensures
        r == spec_check_claims(*store, *claims, expected_type, now),
{
    if claims.typ != expected_type {
        return Err(TokenError::InvalidType);
    }
    if claims.iat > now {
        return Err(TokenError::IatInTheFuture);
    }
    if claims.exp <= now {
        return Err(TokenError::Expired);
    }
    let user = match User::find_by_id(store, claims.sub) {
        Some(u) => u,
        None => {
            return Err(TokenError::InvalidSubject);
        },
    };
    if claims.gen != user.token_generation {
        return Err(TokenError::Revoked);
    }
    Ok(user)
}

/// Verifies a token string and classifies its claims: exactly the
/// strings that pass signature verification are classified by
/// `spec_check_claims` over the claims verification answered, and
/// every other string reports `MalformedToken`. `NoToken` never comes
/// from here.
pub fn validate_token(
    token: &str,
    token_type: TokenType,
    store: &Store,
    now: u64,
    secret: &str,
) -> (r: Result<User, TokenError>)
    ensures
        verified_claims_of(token@, secret@) is None ==> r == Err::<User, TokenError>(
            TokenError::MalformedToken,
        ),
        verified_claims_of(token@, secret@) matches Some(p) ==> r == spec_check_claims(
            *store,
            claims_from_parts(p),
            token_type,
            now,
        ),
        forall|c: TokenClaims|
            token@ == token_of(c.iat, c.exp, c.sub, c.gen, c.typ is Access, secret@) ==> r
                == spec_check_claims(*store, c, token_type, now),
        !(r == Err::<User, TokenError>(TokenError::NoToken)),
{
    let vr = verify_token_string(token, secret);
    match vr {
        Some(claims) => {
            let r = check_claims(store, &claims, token_type, now);
            proof {
                assert(claims_from_parts(
                    (claims.iat, claims.exp, claims.sub, claims.gen, claims.typ is Access),
                ) == claims);
                assert forall|c: TokenClaims|
                    token@ == token_of(
                        c.iat,
                        c.exp,
                        c.sub,
                        c.gen,
                        c.typ is Access,
                        secret@,
                    ) implies r == spec_check_claims(*store, c, token_type, now) by {
                    assert(vr == Some(c));
                }
            }
            r
        },
        None => {
            proof {
                assert forall|c: TokenClaims|
                    token@ == token_of(
                        c.iat,
                        c.exp,
                        c.sub,
                        c.gen,
                        c.typ is Access,
                        secret@,
                    ) implies Err::<User, TokenError>(TokenError::MalformedToken)
                    == spec_check_claims(*store, c, token_type, now) by {
                    assert(vr == Some(c));
                    assert(false);
                }
            }
            Err(TokenError::MalformedToken)
        },
    }
}

/// Law: a token issued for a user is accepted while the user's
/// generation is unchanged and the clock stands at or after the issue
/// instant and before the expiry instant.
pub proof fn lemma_token_round_trip(
    st: Store,
    u: User,
    c: TokenClaims,
    expected: TokenType,
    now: u64,
)
    requires
        st.spec_user_with_id(u.id) == Some(u),
        c.sub == u.id,
        c.gen == u.token_generation,
        c.typ == expected,
        c.iat <= now < c.exp,
    ensures
        spec_check_claims(st, c, expected, now) == Ok::<User, TokenError>(u),
{
}

/// Law: once the user's generation no longer equals the one a token
/// was issued under, the token fails as `Revoked` (whatever its kind,
/// as long as the kind matches and the clock checks pass).
pub proof fn lemma_revocation(st: Store, c: TokenClaims, expected: TokenType, now: u64)
    requires
        c.typ == expected,
        c.iat <= now < c.exp,
        st.spec_user_with_id(c.sub) matches Some(u2) && u2.token_generation != c.gen,
    ensures
        spec_check_claims(st, c, expected, now) == Err::<User, TokenError>(TokenError::Revoked),
{
}

/// Law: claims of one kind checked against the other kind fail as
/// `InvalidType`, before anything else is looked at.
pub proof fn lemma_type_separation(st: Store, c: TokenClaims, expected: TokenType, now: u64)
    requires
        c.typ != expected,
    ensures
        spec_check_claims(st, c, expected, now) == Err::<User, TokenError>(TokenError::InvalidType),
{
}

/// The character class written `\s` in the header pattern: Unicode
/// white space.
pub open spec fn is_pattern_whitespace(c: char) -> bool {
    ||| c as u32 == 0x20
    ||| (0x9 <= c as u32 && c as u32 <= 0xD)
    ||| c as u32 == 0x85
    ||| c as u32 == 0xA0
    ||| c as u32 == 0x1680
    ||| (0x2000 <= c as u32 && c as u32 <= 0x200A)
    ||| c as u32 == 0x2028
    ||| c as u32 == 0x2029
    ||| c as u32 == 0x202F
    ||| c as u32 == 0x205F
    ||| c as u32 == 0x3000
}

/// End of the white-space run that starts at position `i`.
pub open spec fn ws_run_end(s: Seq<char>, i: int) -> int
    decreases s.len() - i,
{
    if i < s.len() && is_pattern_whitespace(s[i]) {
        ws_run_end(s, i + 1)
    } else {
        i
    }
}

/// The scheme name that opens a credential-bearing header.
pub open spec fn has_bearer_prefix(s: Seq<char>) -> bool {
    s.len() >= 6 && s[0] == 'B' && s[1] == 'e' && s[2] == 'a' && s[3] == 'r' && s[4] == 'e' && s[5]
        == 'r'
}

/// The capture of the pattern `^Bearer\s+(.+)$` on the header, `None`
/// on a miss: after the scheme name comes at least one white-space
/// character, greedily as many as possible, and the capture is the
/// non-empty remainder, which may not contain a line feed (`.` does
/// not match one). When everything after the scheme name is white
/// space, the greedy run backs off one character, so the capture is
/// the final white-space character itself unless it is a line feed.
pub open spec fn spec_extract_token(s: Seq<char>) -> Option<Seq<char>> {
    if !has_bearer_prefix(s) {
        None
    } else {
        let w = ws_run_end(s, 6);
        if w == 6 {
            None
        } else if w < s.len() {
            if exists|k: int| w <= k < s.len() && s[k] == '\n' {
                None
            } else {
                Some(s.skip(w))
            }
        } else {
            if w >= 8 && s[w - 1] != '\n' {
                Some(s.skip(w - 1))
            } else {
                None
            }
        }
    }
}

/// Whether the character belongs to the pattern's `\s` class.
fn is_pattern_whitespace_exec(c: char) -> (r: bool)
    ensures
        r == is_pattern_whitespace(c),
{
    let u = c as u32;
    u == 0x20 || (0x9 <= u && u <= 0xD) || u == 0x85 || u == 0xA0 || u == 0x1680 || (0x2000 <= u
        && u <= 0x200A) || u == 0x2028 || u == 0x2029 || u == 0x202F || u == 0x205F || u == 0x3000
}

/// The token captured from an `Authorization` header by the pattern
/// `^Bearer\s+(.+)$`, or `None` when the header does not match.
pub fn extract_access_token_from_header(authorization_header: String) -> (r: Option<String>)
    ensures
        r is Some <==> spec_extract_token(authorization_header@) is Some,
        r matches Some(t) ==> Some(t@) == spec_extract_token(authorization_header@),
{
    let s: &str = authorization_header.as_str();
    let n: usize = s.unicode_len();
    if n < 7 {
        if n < 6 {
            return None;
        }
        if s.get_char(0) == 'B' && s.get_char(1) == 'e' && s.get_char(2) == 'a' && s.get_char(3)
            == 'r' && s.get_char(4) == 'e' && s.get_char(5) == 'r' {
            proof {
                assert(ws_run_end(s@, 6) == 6);
            }
        }
        return None;
    }
    if !(s.get_char(0) == 'B' && s.get_char(1) == 'e' && s.get_char(2) == 'a' && s.get_char(3)
        == 'r' && s.get_char(4) == 'e' && s.get_char(5) == 'r') {
        return None;
    }
    let mut w: usize = 6;
    while w < n && is_pattern_whitespace_exec(s.get_char(w))
        invariant
            6 <= w <= n,
            n == s@.len(),
            ws_run_end(s@, 6) == ws_run_end(s@, w as int),
        decreases n - w,
    {
        w = w + 1;
    }
    proof {
        assert(ws_run_end(s@, w as int) == w);
    }
    if w == 6 {
        return None;
    }
    if w < n {
        let mut k: usize = w;
        while k < n
            invariant
                w <= k <= n,
                n == s@.len(),
                s@ == authorization_header@,
                has_bearer_prefix(s@),
                ws_run_end(s@, 6) == w as int,
                6 < w < n,
                forall|m: int| w <= m < k ==> s@[m] != '\n',
            decreases n - k,
        {
            if s.get_char(k) == '\n' {
                proof {
                    assert(s@[k as int] == '\n');
                }
                return None;
            }
            k = k + 1;
        }
        let t: String = s.substring_char(w, n).to_owned();
        proof {
            assert(t@ =~= s@.skip(w as int));
        }
        Some(t)
    } else {
        if w >= 8 && s.get_char(w - 1) != '\n' {
            let t: String = s.substring_char(w - 1, n).to_owned();
            proof {
                assert(t@ =~= s@.skip(w as int - 1));
            }
            Some(t)
        } else {
            None
        }
    }
}

/// The identity gate: extracts the bearer token from the header value
/// (`NoToken` on a pattern miss) and validates it as an access token
/// against the store, the clock reading and the secret; the extracted
/// token is classified exactly as `validate_token` classifies it.
pub fn authenticate(authorization_header: &str, store: &Store, now: u64, secret: &str) -> (r:
    Result<User, TokenError>)
    ensures
        spec_extract_token(authorization_header@) is None ==> r == Err::<User, TokenError>(
            TokenError::NoToken,
        ),
        spec_extract_token(authorization_header@) matches Some(t) ==> {
            &&& !(r == Err::<User, TokenError>(TokenError::NoToken))
            &&& verified_claims_of(t, secret@) is None ==> r == Err::<User, TokenError>(
                TokenError::MalformedToken,
            )
            &&& verified_claims_of(t, secret@) matches Some(p) ==> r == spec_check_claims(
                *store,
                claims_from_parts(p),
                TokenType::Access,
                now,
            )
            &&& forall|c: TokenClaims|
                t == token_of(c.iat, c.exp, c.sub, c.gen, c.typ is Access, secret@) ==> r
                    == spec_check_claims(*store, c, TokenType::Access, now)
        },
{
    let token = match extract_access_token_from_header(authorization_header.to_owned()) {
        Some(t) => t,
        None => {
            return Err(TokenError::NoToken);
        },
    };
    validate_token(token.as_str(), TokenType::Access, store, now, secret)
}

/// The canonical user-facing phrase for each token error.
pub open spec fn spec_token_error_message(e: TokenError) -> Seq<char> {
    match e {
        TokenError::NoToken => "No Token Provided"@,
        TokenError::MalformedToken => "Malformed Token Provided"@,
        TokenError::IatInTheFuture => "Token with IAT in the Future Provided"@,
        TokenError::Expired => "Expired Token Provided"@,
        TokenError::Revoked => "Revoked Token Provided"@,
        TokenError::InvalidSubject => "Token with Invalid Subject Provided"@,
        TokenError::InvalidType => "Token with Invalid Type Provided"@,
    }
}

/// Maps a token error to the unauthorized response envelope with its
/// canonical phrase.
pub fn token_error_to_response(token_error: &TokenError) -> (r: ErrorResponse)
    ensures
        r.status is Fail,
        r.http_status == 401u16,
        r.reasons is None,
        r.message@ == spec_token_error_message(*token_error),
{
    let message: String = match token_error {
        TokenError::NoToken => "No Token Provided".to_owned(),
        TokenError::MalformedToken => "Malformed Token Provided".to_owned(),
        TokenError::IatInTheFuture => "Token with IAT in the Future Provided".to_owned(),
        TokenError::Expired => "Expired Token Provided".to_owned(),
        TokenError::Revoked => "Revoked Token Provided".to_owned(),
        TokenError::InvalidSubject => "Token with Invalid Subject Provided".to_owned(),
        TokenError::InvalidType => "Token with Invalid Type Provided".to_owned(),
    };
    ErrorResponse::fail(message, 401)
}

/// The fallback translation at the boundary: a token error recorded
/// for the request wins and answers unauthorized with its canonical
/// phrase; otherwise the HTTP status itself is wrapped, as a fail for
/// client errors and as an error for everything else, carrying the
/// given status phrase.
pub fn catch_default(token_error: Option<&TokenError>, status_code: u16, status_phrase: String) -> (r:
    ErrorResponse)
    ensures
        token_error matches Some(e) ==> r.status is Fail && r.http_status == 401u16 && r.message@
            == spec_token_error_message(*e),
        token_error is None && 400 <= status_code < 500 ==> r.status is Fail && r.http_status
            == status_code && r.message@ == status_phrase@,
        token_error is None && !(400 <= status_code < 500) ==> r.status is Error && r.http_status
            == status_code && r.message@ == status_phrase@,
        r.reasons is None,
{
    match token_error {
        Some(e) => token_error_to_response(e),
        None => {
            if 400 <= status_code && status_code < 500 {
                ErrorResponse::fail(status_phrase, status_code)
            } else {
                ErrorResponse::error(status_phrase, status_code)
            }
        },
    }
}

/// Relies on std's SystemTime: the clock reading in whole seconds
/// since the Unix epoch at the moment of the call, 0 if the clock
/// stands before the epoch. The value depends on the clock, so
/// nothing is promised of it.
#[verifier::external_body]
pub fn get_current_timestamp() -> u64 {
    std::time::SystemTime::now().duration_since(std::time::UNIX_EPOCH).unwrap_or_default().as_secs()
}

} // verus!

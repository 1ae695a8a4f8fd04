//! Session cookies.
//!
//! There is no auth beyond a handle and a signed cookie. The cookie is an HMAC over the
//! player id, so a client can hold an identity without the server holding a session table,
//! and cannot forge one without the secret.

use hmac::{Hmac, KeyInit, Mac};
use sha2::Sha256;
use vstd::prelude::*;
use vstd::slice::slice_to_vec;
use vstd::utf8::*;
use crate::text;

verus! {

// ---------------------------------------------------------------------------
// Signatures
// ---------------------------------------------------------------------------

/// The HMAC-SHA256 of a message under a key, as `hmac::Hmac<sha2::Sha256>` computes it.
pub uninterp spec fn hmac_sha256(key: Seq<u8>, message: Seq<u8>) -> Seq<u8>;

/// Computes an HMAC with `hmac::Hmac<sha2::Sha256>`, which accepts a key of any length. The
/// contract names the result, and says that it is 32 bytes long.
#[verifier::external_body]
fn authenticate(key: &[u8], message: &[u8]) -> (r: Vec<u8>)
    ensures
        r@ == hmac_sha256(key@, message@),
        r@.len() == 32,
{
    let mut mac = Hmac::<Sha256>::new_from_slice(key).expect("hmac key");
    mac.update(message);
    mac.finalize().into_bytes().to_vec()
}

/// A lowercase hexadecimal digit.
pub open spec fn hex_digit(d: int) -> char {
    if d < 10 {
        text::digit_char(d)
    } else if d == 10 {
        'a'
    } else if d == 11 {
        'b'
    } else if d == 12 {
        'c'
    } else if d == 13 {
        'd'
    } else if d == 14 {
        'e'
    } else {
        'f'
    }
}

/// Bytes in lowercase hexadecimal: two digits for each, the higher one first.
pub open spec fn hex_text(bytes: Seq<u8>) -> Seq<char> {
    Seq::new(
        2 * bytes.len(),
        |i: int|
            if i % 2 == 0 {
                hex_digit(bytes[i / 2] as int / 16)
            } else {
                hex_digit(bytes[i / 2] as int % 16)
            },
    )
}

/// Encodes bytes with `hex::encode`. The contract says what it documents: two lowercase
/// hexadecimal digits for each byte.
#[verifier::external_body]
fn hex_encode(bytes: &[u8]) -> (r: String)
    ensures
        r@ == hex_text(bytes@),
{
    hex::encode(bytes)
}

/// The signature of a player id: the HMAC of its decimal form, in hexadecimal.
pub open spec fn signature(secret: Seq<u8>, player_id: int) -> Seq<char> {
    hex_text(hmac_sha256(secret, encode_utf8(text::decimal(player_id))))
}

/// Signs a player id.
pub fn sign(secret: &[u8], player_id: i64) -> (r: String)
    ensures
        r@ == signature(secret@, player_id as int),
        r@ == hex_text(hmac_sha256(secret@, encode_utf8(text::decimal(player_id as int)))),
        r@.len() == 64,
{
    let message: String = text::format_i64(player_id);
    let mac: Vec<u8> = authenticate(secret, message.as_str().as_bytes());
    hex_encode(mac.as_slice())
}

/// Whether two signatures are the same. Every byte is compared, wherever the first
/// difference stands, so that a forged cookie cannot be guessed byte by byte.
pub fn same_signature(expected: &str, sig: &str) -> (r: bool)
    ensures
        r == (expected@ == sig@),
{
    let a: &[u8] = expected.as_bytes();
    let b: &[u8] = sig.as_bytes();
    proof {
        encode_utf8_decode_utf8(expected@);
        encode_utf8_decode_utf8(sig@);
    }
    if a.len() != b.len() {
        return false;
    }
    let n: usize = a.len();
    let mut difference: u8 = 0;
    let mut i: usize = 0;
    while i < n
        invariant
            n == a@.len(),
            n == b@.len(),
            i <= n,
            (difference == 0) == (forall|j: int| 0 <= j < i ==> a@[j] == b@[j]),
        decreases n - i,
    {
        let x: u8 = a[i];
        let y: u8 = b[i];
        let before: u8 = difference;
        difference = before | (x ^ y);
        assert(((before | (x ^ y)) == 0) == (before == 0 && x == y)) by (bit_vector);
        assert((difference == 0) == (before == 0 && a@[i as int] == b@[i as int]));
        i = i + 1;
    }
    if difference == 0 {
        assert(a@ =~= b@);
    }
    difference == 0
}

/// Whether a signature is the one of this player.
pub fn verify(secret: &[u8], player_id: i64, sig: &str) -> (r: bool)
    ensures
        r == (sig@ == signature(secret@, player_id as int)),
{
    let expected: String = sign(secret, player_id);
    same_signature(expected.as_str(), sig)
}

/// The signing key that the environment gives, where it gives one that is not empty.
///
/// There is no literal fallback: it would be a publicly known key, with which anyone could
/// mint a cookie. Where this is `None`, a fresh random key takes its place; cookies then
/// stop surviving a restart, which is the safe failure.
pub fn secret_from_env(value: Option<String>) -> (r: Option<Vec<u8>>)
    ensures
        match r {
            Some(key) => value matches Some(v) && v@.len() > 0 && key@ == encode_utf8(v@),
            None => value is None || value->0@.len() == 0,
        },
{
    match value {
        Some(v) => {
            if v.as_str().is_empty() {
                None
            } else {
                Some(slice_to_vec(v.as_str().as_bytes()))
            }
        },
        None => None,
    }
}

// ---------------------------------------------------------------------------
// Cookies
// ---------------------------------------------------------------------------

/// What the session cookie is called, and the sign after it.
pub const COOKIE_PREFIX: &'static str = "pulse_player=";

/// How a browser is to keep the session cookie.
pub const COOKIE_ATTRIBUTES: &'static str =
    "; Path=/; Max-Age=2592000; SameSite=None; Secure; HttpOnly";

/// What one part of a `Cookie` header is.
pub enum CookiePart {
    /// Somebody else's cookie.
    Other,
    /// A session cookie that does not name a player and a signature.
    Malformed,
    /// A claim to be a player, with the signature that is to prove it.
    Claim(i64, Seq<char>),
}

/// What one part of a `Cookie` header is.
pub open spec fn cookie_part(part: Seq<char>) -> CookiePart {
    match text::strip_prefix_text(text::trim_text(part), COOKIE_PREFIX@) {
        None => CookiePart::Other,
        Some(value) => match text::split_once_text(value, '.') {
            None => CookiePart::Malformed,
            Some((id, sig)) => match text::i64_value(id) {
                None => CookiePart::Malformed,
                Some(n) => CookiePart::Claim(n, sig),
            },
        },
    }
}

/// The claims that the parts of a `Cookie` header make, up to the first malformed one.
pub open spec fn claims_of(parts: Seq<Seq<char>>) -> Seq<(i64, Seq<char>)>
    decreases parts.len(),
{
    if parts.len() == 0 {
        Seq::empty()
    } else {
        match cookie_part(parts[0]) {
            CookiePart::Other => claims_of(parts.skip(1)),
            CookiePart::Malformed => Seq::empty(),
            CookiePart::Claim(id, sig) => seq![(id, sig)] + claims_of(parts.skip(1)),
        }
    }
}

/// The first claim that its signature proves.
pub open spec fn first_signed(secret: Seq<u8>, claims: Seq<(i64, Seq<char>)>) -> Option<i64>
    decreases claims.len(),
{
    if claims.len() == 0 {
        None
    } else if claims[0].1 == signature(secret, claims[0].0 as int) {
        Some(claims[0].0)
    } else {
        first_signed(secret, claims.skip(1))
    }
}

/// The player that a `Cookie` header proves to be.
pub open spec fn player_of(secret: Seq<u8>, cookies: Seq<char>) -> Option<i64> {
    first_signed(secret, claims_of(text::split_text(cookies, ';')))
}

/// The claims of a sequence of pairs.
pub open spec fn claims_view(claims: Seq<(i64, String)>) -> Seq<(i64, Seq<char>)> {
    Seq::new(claims.len(), |i: int| (claims[i].0, claims[i].1@))
}

/// The claims that a `Cookie` header makes, up to the first malformed one.
pub fn claims(cookies: &str) -> (r: Vec<(i64, String)>)
    ensures
        claims_view(r@) == claims_of(text::split_text(cookies@, ';')),
{
    let parts: Vec<String> = text::split(cookies, ';');
    let ghost view = text::split_text(cookies@, ';');
    let mut out: Vec<(i64, String)> = Vec::new();
    let mut i: usize = 0;
    assert(view.skip(0) =~= view);
    assert(claims_view(out@) =~= Seq::<(i64, Seq<char>)>::empty());
    assert(claims_view(out@) + claims_of(view) =~= claims_of(view));
    while i < parts.len()
        invariant
            i <= parts@.len(),
            view == text::texts(parts@),
            view == text::split_text(cookies@, ';'),
            claims_view(out@) + claims_of(view.skip(i as int)) == claims_of(view),
        decreases parts@.len() - i,
    {
        let ghost rest = view.skip(i as int);
        assert(rest[0] == parts@[i as int]@);
        assert(rest.skip(1) =~= view.skip(i + 1));
        let part: String = text::trim(parts[i].as_str());
        match text::strip_prefix(part.as_str(), COOKIE_PREFIX) {
            None => {
                assert(cookie_part(rest[0]) is Other);
            },
            Some(value) => {
                match text::split_once(value.as_str(), '.') {
                    None => {
                        assert(cookie_part(rest[0]) is Malformed);
                        assert(claims_view(out@) + claims_of(rest) =~= claims_view(out@));
                        return out;
                    },
                    Some((id, sig)) => {
                        match text::parse_i64(id.as_str()) {
                            None => {
                                assert(cookie_part(rest[0]) is Malformed);
                                assert(claims_view(out@) + claims_of(rest) =~= claims_view(out@));
                                return out;
                            },
                            Some(n) => {
                                let ghost before = out@;
                                let ghost claimed = (n, sig@);
                                assert(cookie_part(rest[0]) == CookiePart::Claim(n, sig@));
                                out.push((n, sig));
                                proof {
                                    assert(claims_view(out@) =~= claims_view(before).push(claimed));
                                    assert(claims_view(before) + (seq![claimed] + claims_of(
                                        rest.skip(1),
                                    )) =~= claims_view(out@) + claims_of(rest.skip(1)));
                                }
                            },
                        }
                    },
                }
            },
        }
        i = i + 1;
    }
    assert(view.skip(i as int) =~= Seq::<Seq<char>>::empty());
    assert(claims_view(out@) + claims_of(view.skip(i as int)) =~= claims_view(out@));
    out
}

/// Reads the player id out of the signed cookie, if present and valid. `cookies` is the
/// text of the `Cookie` header, where the request has one that is text.
pub fn player_from_cookies(secret: &[u8], cookies: Option<&str>) -> (r: Option<i64>)
    ensures
        r == match cookies {
            Some(raw) => player_of(secret@, raw@),
            None => None,
        },
{
    match cookies {
        None => None,
        Some(raw) => {
            let claimed: Vec<(i64, String)> = claims(raw);
            let ghost view = claims_view(claimed@);
            let mut i: usize = 0;
            assert(view.skip(0) =~= view);
            while i < claimed.len()
                invariant
                    i <= claimed@.len(),
                    view == claims_view(claimed@),
                    first_signed(secret@, view.skip(i as int)) == first_signed(secret@, view),
                    player_of(secret@, raw@) == first_signed(secret@, view),
                    cookies == Some(raw),
                decreases claimed@.len() - i,
            {
                let ghost rest = view.skip(i as int);
                assert(rest[0] == (claimed@[i as int].0, claimed@[i as int].1@));
                assert(rest.skip(1) =~= view.skip(i + 1));
                if verify(secret, claimed[i].0, claimed[i].1.as_str()) {
                    return Some(claimed[i].0);
                }
                i = i + 1;
            }
            None
        },
    }
}

/// The session cookie of a player, as a browser sends it back.
pub open spec fn cookie_pair(secret: Seq<u8>, player_id: int) -> Seq<char> {
    COOKIE_PREFIX@ + (text::decimal(player_id).push('.') + signature(secret, player_id))
}

/// The `Set-Cookie` header that gives a player their session.
pub fn session_cookie(secret: &[u8], player_id: i64) -> (r: String)
    ensures
        r@ == cookie_pair(secret@, player_id as int) + COOKIE_ATTRIBUTES@,
        r@ == "pulse_player="@ + (text::decimal(player_id as int).push('.') + signature(
            secret@,
            player_id as int,
        )) + "; Path=/; Max-Age=2592000; SameSite=None; Secure; HttpOnly"@,
{
    let id: String = text::format_i64(player_id);
    let sig: String = sign(secret, player_id);
    let value: String = text::join3(id.as_str(), ".", sig.as_str());
    proof {
        reveal_strlit(".");
        assert(value@ =~= text::decimal(player_id as int).push('.') + signature(
            secret@,
            player_id as int,
        ));
    }
    text::join3(COOKIE_PREFIX, value.as_str(), COOKIE_ATTRIBUTES)
}

// ---------------------------------------------------------------------------
// Laws
// ---------------------------------------------------------------------------

/// Hexadecimal text holds nothing but hexadecimal digits.
proof fn lemma_hex_chars(bytes: Seq<u8>, c: char)
    requires
        !text::is_digit(c),
        !('a' <= c <= 'f'),
    ensures
        !hex_text(bytes).contains(c),
{
    assert forall|i: int| 0 <= i < hex_text(bytes).len() implies hex_text(bytes)[i] != c by {
        let b = bytes[i / 2] as int;
        assert(0 <= b / 16 < 16 && 0 <= b % 16 < 16);
    }
}

/// A session cookie is a claim to be its player, with their signature.
proof fn lemma_pair_is_a_claim(secret: Seq<u8>, player_id: i64)
    ensures
        cookie_part(cookie_pair(secret, player_id as int)) == CookiePart::Claim(
            player_id,
            signature(secret, player_id as int),
        ),
        !cookie_pair(secret, player_id as int).contains(';'),
{
    reveal_strlit("pulse_player=");
    let id = text::decimal(player_id as int);
    let sig = signature(secret, player_id as int);
    let mac = hmac_sha256(secret, encode_utf8(id));
    let value = id.push('.') + sig;
    let pair = cookie_pair(secret, player_id as int);
    let prefix = COOKIE_PREFIX@;
    text::lemma_decimal_chars(player_id as int, '.');
    text::lemma_decimal_chars(player_id as int, ';');
    lemma_hex_chars(mac, ';');
    assert forall|i: int| 0 <= i < pair.len() implies pair[i] != ';' by {
        if i < prefix.len() {
            assert(pair[i] == prefix[i]);
        } else {
            let k = i - prefix.len();
            assert(pair[i] == value[k]);
            if k < id.len() {
                assert(value[k] == id[k]);
                assert(id.contains(id[k]));
            } else if k > id.len() {
                assert(value[k] == sig[k - id.len() - 1]);
                assert(sig.contains(sig[k - id.len() - 1]));
            }
        }
    }
    assert(pair[0] == 'p');
    assert(text::trim_start_text(pair) == pair);
    let last = pair.last();
    assert(last == value.last());
    if sig.len() == 0 {
        assert(last == '.');
    } else {
        assert(last == sig.last());
        let b = mac[(sig.len() - 1) / 2] as int;
        assert(0 <= b / 16 < 16 && 0 <= b % 16 < 16);
    }
    assert(!text::is_white_space(last));
    assert(text::trim_text(pair) == pair);
    assert(pair.subrange(0, prefix.len() as int) =~= prefix);
    assert(pair.skip(prefix.len() as int) =~= value);
    text::lemma_split_first(id, '.', sig);
    text::law_decimal_round_trip(player_id);
}

/// A player who sends their session cookie back is recognised, whether the browser sends
/// the cookie alone or it is read from the header that set it.
pub proof fn law_session_round_trip(secret: Seq<u8>, player_id: i64)
    ensures
        player_of(secret, cookie_pair(secret, player_id as int)) == Some(player_id),
        player_of(secret, cookie_pair(secret, player_id as int) + COOKIE_ATTRIBUTES@) == Some(
            player_id,
        ),
{
    let pair = cookie_pair(secret, player_id as int);
    lemma_pair_is_a_claim(secret, player_id);
    text::lemma_split_whole(pair, ';');
    let alone = text::split_text(pair, ';');
    assert(alone[0] == pair);
    assert(claims_of(alone)[0] == (player_id, signature(secret, player_id as int)));
    reveal_strlit("; Path=/; Max-Age=2592000; SameSite=None; Secure; HttpOnly");
    let rest = COOKIE_ATTRIBUTES@.skip(1);
    assert(pair + COOKIE_ATTRIBUTES@ =~= pair.push(';') + rest);
    text::lemma_split_first(pair, ';', rest);
    let parts = text::split_text(pair + COOKIE_ATTRIBUTES@, ';');
    assert(parts[0] == pair);
    assert(claims_of(parts)[0] == (player_id, signature(secret, player_id as int)));
}

/// Other cookies in front of the session cookie make no difference.
pub proof fn law_other_cookies_are_skipped(secret: Seq<u8>, other: Seq<char>, rest: Seq<char>)
    requires
        !other.contains(';'),
        cookie_part(other) is Other,
    ensures
        player_of(secret, other.push(';') + rest) == player_of(secret, rest),
{
    text::lemma_split_first(other, ';', rest);
    let parts = text::split_text(other.push(';') + rest, ';');
    assert(parts[0] == other);
    assert(parts.skip(1) =~= text::split_text(rest, ';'));
}

/// Nobody is recognised without a signature: whoever is recognised sent, in one of the
/// parts, their id with the signature that the secret gives it.
pub proof fn law_only_signed_players_are_recognised(secret: Seq<u8>, cookies: Seq<char>)
    ensures
        player_of(secret, cookies) matches Some(id) ==> exists|i: int|
            0 <= i < text::split_text(cookies, ';').len() && cookie_part(
                #[trigger] text::split_text(cookies, ';')[i],
            ) == CookiePart::Claim(id, signature(secret, id as int)),
{
    lemma_signed_part(secret, text::split_text(cookies, ';'));
}

/// The first signed claim comes from one of the parts.
proof fn lemma_signed_part(secret: Seq<u8>, parts: Seq<Seq<char>>)
    ensures
        first_signed(secret, claims_of(parts)) matches Some(id) ==> exists|i: int|
            0 <= i < parts.len() && cookie_part(#[trigger] parts[i]) == CookiePart::Claim(
                id,
                signature(secret, id as int),
            ),
    decreases parts.len(),
{
    if parts.len() > 0 {
        let rest = parts.skip(1);
        lemma_signed_part(secret, rest);
        match cookie_part(parts[0]) {
            CookiePart::Claim(id, sig) => {
                let claims = claims_of(parts);
                assert(claims[0] == (id, sig));
                assert(claims.skip(1) =~= claims_of(rest));
            },
            _ => {},
        }
        if let Some(id) = first_signed(secret, claims_of(parts)) {
            if !(cookie_part(parts[0]) == CookiePart::Claim(id, signature(secret, id as int))) {
                let j = choose|j: int|
                    0 <= j < rest.len() && cookie_part(#[trigger] rest[j]) == CookiePart::Claim(
                        id,
                        signature(secret, id as int),
                    );
                assert(parts[j + 1] == rest[j]);
            }
        }
    }
}

/// A part of the header is a claim exactly where, without the white space around it, it is the
/// cookie's name, an id in decimal, a dot and the signature; it is somebody else's cookie
/// exactly where it does not begin with the cookie's name.
pub proof fn law_claims_name_a_player_and_a_signature(part: Seq<char>, n: i64, sig: Seq<char>)
    ensures
        cookie_part(part) == CookiePart::Claim(n, sig) <==> exists|id: Seq<char>|
            text::trim_text(part) == "pulse_player="@ + #[trigger] (id.push('.') + sig)
                && !id.contains('.') && text::i64_value(id) == Some(n),
        cookie_part(part) is Other <==> !(exists|value: Seq<char>|
            text::trim_text(part) == #[trigger] ("pulse_player="@ + value)),
{
    let trimmed = text::trim_text(part);
    let prefix = "pulse_player="@;
    text::law_stripped_prefixes_can_be_put_back(trimmed, prefix);
    match text::strip_prefix_text(trimmed, prefix) {
        Some(value) => {
            text::law_the_first_separator_parts(value, '.');
            assert(trimmed == prefix + value);
            if exists|id: Seq<char>|
                trimmed == prefix + #[trigger] (id.push('.') + sig) && !id.contains('.')
                    && text::i64_value(id) == Some(n) {
                let id = choose|id: Seq<char>|
                    trimmed == prefix + #[trigger] (id.push('.') + sig) && !id.contains('.')
                        && text::i64_value(id) == Some(n);
                assert(value =~= trimmed.skip(prefix.len() as int));
                assert(value =~= id.push('.') + sig);
                text::lemma_split_first(id, '.', sig);
            }
            if cookie_part(part) == CookiePart::Claim(n, sig) {
                let (id, _) = text::split_once_text(value, '.')->0;
                assert(trimmed == prefix + (id.push('.') + sig));
            }
        },
        None => {
            assert forall|id: Seq<char>| trimmed != prefix + #[trigger] (id.push('.') + sig) by {
                assert(trimmed != prefix + (id.push('.') + sig));
            }
        },
    }
}

/// A claim whose signature is not the player's is passed over, as if it were not there.
pub proof fn law_forged_claims_are_passed_over(
    secret: Seq<u8>,
    forged: Seq<char>,
    n: i64,
    sig: Seq<char>,
    rest: Seq<char>,
)
    requires
        !forged.contains(';'),
        cookie_part(forged) == CookiePart::Claim(n, sig),
        sig != signature(secret, n as int),
    ensures
        player_of(secret, forged.push(';') + rest) == player_of(secret, rest),
        player_of(secret, forged) is None,
{
    text::lemma_split_first(forged, ';', rest);
    let parts = text::split_text(forged.push(';') + rest, ';');
    assert(parts[0] == forged);
    assert(parts.skip(1) =~= text::split_text(rest, ';'));
    let all = claims_of(parts);
    assert(all[0] == (n, sig));
    assert(all.skip(1) =~= claims_of(parts.skip(1)));
    lemma_alone(secret, forged);
}

/// A claim with the player's own signature is recognised, whatever follows it.
pub proof fn law_the_first_signed_claim_decides(
    secret: Seq<u8>,
    signed: Seq<char>,
    n: i64,
    rest: Seq<char>,
)
    requires
        !signed.contains(';'),
        cookie_part(signed) == CookiePart::Claim(n, signature(secret, n as int)),
    ensures
        player_of(secret, signed.push(';') + rest) == Some(n),
        player_of(secret, signed) == Some(n),
{
    text::lemma_split_first(signed, ';', rest);
    let parts = text::split_text(signed.push(';') + rest, ';');
    assert(parts[0] == signed);
    assert(claims_of(parts)[0] == (n, signature(secret, n as int)));
    lemma_alone(secret, signed);
}

/// A session cookie that names no player, or no signature, ends the search: nobody is
/// recognised by what follows it.
pub proof fn law_malformed_cookies_hide_what_follows(
    secret: Seq<u8>,
    malformed: Seq<char>,
    rest: Seq<char>,
)
    requires
        !malformed.contains(';'),
        cookie_part(malformed) is Malformed,
    ensures
        player_of(secret, malformed.push(';') + rest) is None,
        player_of(secret, malformed) is None,
{
    text::lemma_split_first(malformed, ';', rest);
    let parts = text::split_text(malformed.push(';') + rest, ';');
    assert(parts[0] == malformed);
    lemma_alone(secret, malformed);
}

/// A header of one part.
proof fn lemma_alone(secret: Seq<u8>, part: Seq<char>)
    requires
        !part.contains(';'),
    ensures
        player_of(secret, part) == match cookie_part(part) {
            CookiePart::Claim(n, sig) => if sig == signature(secret, n as int) {
                Some(n)
            } else {
                None
            },
            _ => None,
        },
{
    text::lemma_split_whole(part, ';');
    let parts = text::split_text(part, ';');
    assert(parts[0] == part);
    let none = parts.skip(1);
    assert(none =~= Seq::<Seq<char>>::empty());
    assert(claims_of(none) =~= Seq::<(i64, Seq<char>)>::empty());
    if let CookiePart::Claim(n, sig) = cookie_part(part) {
        let all = claims_of(parts);
        assert(all =~= seq![(n, sig)]);
        assert(all.skip(1) =~= Seq::<(i64, Seq<char>)>::empty());
        assert(first_signed(secret, all.skip(1)) is None);
    } else {
        assert(claims_of(parts) =~= Seq::<(i64, Seq<char>)>::empty());
    }
}

/// Hexadecimal text tells its bytes apart: two digits for each byte, which say its value.
pub proof fn law_hex_texts_are_distinct(a: Seq<u8>, b: Seq<u8>)
    requires
        hex_text(a) == hex_text(b),
    ensures
        a == b,
{
    let s = hex_text(a);
    let t = hex_text(b);
    assert(s.len() == 2 * a.len() && t.len() == 2 * b.len());
    assert forall|i: int| 0 <= i < a.len() implies a[i] == b[i] by {
        assert(s[2 * i] == t[2 * i]);
        assert(s[2 * i + 1] == t[2 * i + 1]);
        let x = a[i] as int;
        let y = b[i] as int;
        assert((2 * i) / 2 == i && (2 * i + 1) / 2 == i);
        assert(0 <= x / 16 < 16 && 0 <= x % 16 < 16 && 0 <= y / 16 < 16 && 0 <= y % 16 < 16);
        lemma_hex_digits_are_distinct(x / 16, y / 16);
        lemma_hex_digits_are_distinct(x % 16, y % 16);
    }
    assert(a =~= b);
}

/// Distinct values have distinct hexadecimal digits.
proof fn lemma_hex_digits_are_distinct(x: int, y: int)
    requires
        0 <= x < 16,
        0 <= y < 16,
        hex_digit(x) == hex_digit(y),
    ensures
        x == y,
{
}

} // verus!

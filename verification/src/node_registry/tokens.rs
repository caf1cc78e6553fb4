//! Zero-touch provisioning: enrollment token issuance and bundle codec.
//!
//! An operator mints a token. The controller returns a base64-encoded "bootstrap
//! bundle" carrying the controller URL, the CA fingerprint, and the token. The bundle
//! is dropped onto target hosts and the agent uses it to complete an unattended
//! enrollment.
//!
//! Token security:
//! - The random 32-byte secret is shown to the operator exactly once at
//!   creation time. Only its SHA-256 is persisted.
//! - Tokens are scoped (TTL, max-uses, optional CIDR/fleet label) and revocable.
//! - Once consumed, the receiving agent has its own per-node mTLS cert; the
//!   token is no longer needed.

use crate::crypto;
use crate::ids;
use crate::json::{self, Json, JsonNumber, JsonView, NumberView, Parsed};
use crate::store::records::TokenView;
use crate::store::EnrollmentTokenRecord;
use crate::text;
use crate::timestamp::{self, TimeSpan, Timestamp};
use vstd::prelude::*;

verus! {

broadcast use vstd::string::group_string_axioms;

/// Length of the random token secret in bytes.
pub const TOKEN_SECRET_BYTES: usize = 32;

/// What the operator sees when minting a token. The base64 `bundle` is
/// dropped onto target hosts; the raw token secret is never returned to disk
/// or exposed again after this moment.
pub struct IssuedToken {
    pub token_id: String,
    pub bundle: String,
    pub expires_at: Timestamp,
    pub uses_remaining: i64,
}

/// On-the-wire bundle format. Versioned for future extension.
///
/// Encoded as JSON, then base64url-no-pad (compact, copy-pasteable, no
/// trailing `=` to confuse shell tools).
pub struct BootstrapBundle {
    /// Bundle schema version. Currently 1.
    pub v: u32,
    /// gRPC URL of the enrollment endpoint (TLS, no client cert).
    pub enrollment_url: String,
    /// gRPC URL of the management endpoint (mTLS, used after enrollment).
    pub controller_url: String,
    /// SHA-256 over the DER of the controller's CA cert, hex-encoded.
    pub ca_fp_sha256: String,
    /// UUID for token lookup.
    pub token_id: String,
    /// Raw token secret, base64url-encoded (no padding).
    pub token_b64: String,
    /// Unix seconds, for early agent-side expiry checks (controller is authoritative).
    pub expires_at: i64,
}

/// What a bundle holds.
pub struct BundleView {
    pub v: u32,
    pub enrollment_url: Seq<char>,
    pub controller_url: Seq<char>,
    pub ca_fp_sha256: Seq<char>,
    pub token_id: Seq<char>,
    pub token_b64: Seq<char>,
    pub expires_at: i64,
}

impl View for BootstrapBundle {
    type V = BundleView;

    open spec fn view(&self) -> BundleView {
        BundleView {
            v: self.v,
            enrollment_url: self.enrollment_url@,
            controller_url: self.controller_url@,
            ca_fp_sha256: self.ca_fp_sha256@,
            token_id: self.token_id@,
            token_b64: self.token_b64@,
            expires_at: self.expires_at,
        }
    }
}

/// The members of the JSON object of a bundle, in their order.
pub open spec fn bundle_members(b: BundleView) -> Seq<(Seq<char>, JsonView)> {
    seq![
        ("v"@, json::integer_json(b.v as int)),
        ("enrollment_url"@, JsonView::Str(b.enrollment_url)),
        ("controller_url"@, JsonView::Str(b.controller_url)),
        ("ca_fp_sha256"@, JsonView::Str(b.ca_fp_sha256)),
        ("token_id"@, JsonView::Str(b.token_id)),
        ("token_b64"@, JsonView::Str(b.token_b64)),
        ("expires_at"@, json::integer_json(b.expires_at as int)),
    ]
}

/// The number that a value is, if it fits in 32 bits without a sign.
pub open spec fn as_u32(j: JsonView) -> Option<u32> {
    match j {
        JsonView::Number(NumberView::Unsigned(n)) => if n <= u32::MAX {
            Some(n as u32)
        } else {
            None
        },
        _ => None,
    }
}

/// The number that a value is, if it fits in 64 bits with a sign.
pub open spec fn as_i64(j: JsonView) -> Option<i64> {
    match j {
        JsonView::Number(NumberView::Unsigned(n)) => if n <= i64::MAX {
            Some(n as i64)
        } else {
            None
        },
        JsonView::Number(NumberView::Negative(n)) => if i64::MIN <= n {
            Some(n as i64)
        } else {
            None
        },
        _ => None,
    }
}

/// The bundle with these values for its fields, if each is of the right type.
pub open spec fn bundle_of_fields(f: Seq<JsonView>) -> Option<BundleView> {
    match (as_u32(f[0]), f[1], f[2], f[3], f[4], f[5], as_i64(f[6])) {
        (
            Some(v),
            JsonView::Str(enrollment_url),
            JsonView::Str(controller_url),
            JsonView::Str(ca_fp_sha256),
            JsonView::Str(token_id),
            JsonView::Str(token_b64),
            Some(expires_at),
        ) => Some(
            BundleView {
                v,
                enrollment_url,
                controller_url,
                ca_fp_sha256,
                token_id,
                token_b64,
                expires_at,
            },
        ),
        _ => None,
    }
}

/// The names of the fields of a bundle.
pub open spec fn field_names() -> Seq<Seq<char>> {
    seq![
        "v"@,
        "enrollment_url"@,
        "controller_url"@,
        "ca_fp_sha256"@,
        "token_id"@,
        "token_b64"@,
        "expires_at"@,
    ]
}

/// The bundle that a JSON value is: an object with all fields, perhaps among others,
/// or an array of their values in order.
pub open spec fn bundle_of(j: JsonView) -> Option<BundleView> {
    match j {
        JsonView::Object(m) => if forall|i: int|
            0 <= i < 7 ==> m.contains_key(#[trigger] field_names()[i]) {
            bundle_of_fields(Seq::new(7, |i: int| m[field_names()[i]]))
        } else {
            None
        },
        JsonView::Array(s) => if s.len() == 7 {
            bundle_of_fields(s)
        } else {
            None
        },
        _ => None,
    }
}

/// Why a bundle, or part of one, cannot be read.
#[derive(Debug)]
pub enum BundleError {
    NotBase64,
    Malformed,
    Version(u32),
    TokenNotBase64,
    FingerprintNotHex,
    FingerprintLength(usize),
}

impl BundleError {
    /// The text of the error.
    pub open spec fn message(self) -> Seq<char> {
        match self {
            BundleError::NotBase64 => "Bootstrap bundle is not valid base64url-no-pad"@,
            BundleError::Malformed => "Bootstrap bundle JSON is malformed"@,
            BundleError::Version(v) => "Unsupported bootstrap bundle version: "@ + text::decimal(
                v as nat,
            ) + " (expected 1)"@,
            BundleError::TokenNotBase64 =>
                "Token in bootstrap bundle is not valid base64url-no-pad"@,
            BundleError::FingerprintNotHex => "ca_fp_sha256 in bootstrap bundle is not valid hex"@,
            BundleError::FingerprintLength(n) => "Expected 32-byte fingerprint, got "@
                + text::decimal(n as nat),
        }
    }

    /// The text of the error.
    pub fn to_text(&self) -> (s: String)
        ensures
            s@ == self.message(),
    {
        match self {
            BundleError::NotBase64 => "Bootstrap bundle is not valid base64url-no-pad".to_string(),
            BundleError::Malformed => "Bootstrap bundle JSON is malformed".to_string(),
            BundleError::Version(v) => text::concat3(
                "Unsupported bootstrap bundle version: ",
                text::u64_text(*v as u64).as_str(),
                " (expected 1)",
            ),
            BundleError::TokenNotBase64 =>
                "Token in bootstrap bundle is not valid base64url-no-pad".to_string(),
            BundleError::FingerprintNotHex =>
                "ca_fp_sha256 in bootstrap bundle is not valid hex".to_string(),
            BundleError::FingerprintLength(n) => text::concat2(
                "Expected 32-byte fingerprint, got ",
                text::usize_text(*n).as_str(),
            ),
        }
    }
}

/// What reading a transport form comes to.
pub enum Decoded {
    NotBase64,
    Malformed,
    Version(u32),
    Bundle(BundleView),
}

/// What reading a transport form comes to: white space around it does not matter, it
/// is base64url without padding, holds the JSON of a bundle, and its version is 1.
pub open spec fn decoded(s: Seq<char>) -> Decoded {
    match crypto::base64_bytes(text::trim(s)) {
        None => Decoded::NotBase64,
        Some(bytes) => match json::parsed_json(bytes) {
            Parsed::Refused(_) => Decoded::Malformed,
            Parsed::Value(j) => match bundle_of(j) {
                None => Decoded::Malformed,
                Some(b) => if b.v != 1 {
                    Decoded::Version(b.v)
                } else {
                    Decoded::Bundle(b)
                },
            },
        },
    }
}

/// The transport form of a bundle.
pub open spec fn encoded(b: BundleView) -> Seq<char> {
    crypto::base64_text(vstd::utf8::encode_utf8(json::printed_members(bundle_members(b))))
}

/// The number that a value is, if it fits in 32 bits without a sign.
fn read_u32(j: &Json) -> (r: Option<u32>)
    ensures
        r == as_u32(j@),
{
    match j {
        Json::Number(JsonNumber::Unsigned(n)) => if *n <= u32::MAX as u64 {
            Some(*n as u32)
        } else {
            None
        },
        _ => None,
    }
}

/// The number that a value is, if it fits in 64 bits with a sign.
fn read_i64(j: &Json) -> (r: Option<i64>)
    ensures
        r == as_i64(j@),
{
    match j {
        Json::Number(JsonNumber::Unsigned(n)) => if *n <= i64::MAX as u64 {
            Some(*n as i64)
        } else {
            None
        },
        Json::Number(JsonNumber::Negative(n)) => Some(*n),
        _ => None,
    }
}

/// The bundle with these values for its fields.
fn read_fields(
    v: &Json,
    enrollment_url: &Json,
    controller_url: &Json,
    ca_fp_sha256: &Json,
    token_id: &Json,
    token_b64: &Json,
    expires_at: &Json,
) -> (r: Option<BootstrapBundle>)
    ensures
        match r {
            Some(b) => bundle_of_fields(
                seq![
                    v@,
                    enrollment_url@,
                    controller_url@,
                    ca_fp_sha256@,
                    token_id@,
                    token_b64@,
                    expires_at@,
                ],
            ) == Some(b@),
            None => bundle_of_fields(
                seq![
                    v@,
                    enrollment_url@,
                    controller_url@,
                    ca_fp_sha256@,
                    token_id@,
                    token_b64@,
                    expires_at@,
                ],
            ) is None,
        },
{
    let version = read_u32(v);
    let expiry = read_i64(expires_at);
    match (version, enrollment_url, controller_url, ca_fp_sha256, token_id, token_b64, expiry) {
        (
            Some(v),
            Json::Str(enrollment_url),
            Json::Str(controller_url),
            Json::Str(ca_fp_sha256),
            Json::Str(token_id),
            Json::Str(token_b64),
            Some(expires_at),
        ) => Some(
            BootstrapBundle {
                v,
                enrollment_url: enrollment_url.clone(),
                controller_url: controller_url.clone(),
                ca_fp_sha256: ca_fp_sha256.clone(),
                token_id: token_id.clone(),
                token_b64: token_b64.clone(),
                expires_at,
            },
        ),
        _ => None,
    }
}

/// The bundle that a JSON value is.
fn read_bundle(j: &Json) -> (r: Option<BootstrapBundle>)
    requires
        j.wf(),
    ensures
        match r {
            Some(b) => bundle_of(j@) == Some(b@),
            None => bundle_of(j@) is None,
        },
{
    match j {
        Json::Object(members) => {
            proof {
                json::lemma_object_view(*members);
            }
            let ghost m = json::members_view(members@);
            let ghost fields = Seq::new(7, |i: int| m[field_names()[i]]);
            let found = (
                json::get(members, "v"),
                json::get(members, "enrollment_url"),
                json::get(members, "controller_url"),
                json::get(members, "ca_fp_sha256"),
                json::get(members, "token_id"),
                json::get(members, "token_b64"),
                json::get(members, "expires_at"),
            );
            match found {
                (Some(a), Some(b), Some(c), Some(d), Some(e), Some(f), Some(g)) => {
                    assert(fields =~= seq![a@, b@, c@, d@, e@, f@, g@]);
                    read_fields(a, b, c, d, e, f, g)
                },
                _ => {
                    proof {
                        assert(field_names()[0] == "v"@);
                        assert(field_names()[1] == "enrollment_url"@);
                        assert(field_names()[2] == "controller_url"@);
                        assert(field_names()[3] == "ca_fp_sha256"@);
                        assert(field_names()[4] == "token_id"@);
                        assert(field_names()[5] == "token_b64"@);
                        assert(field_names()[6] == "expires_at"@);
                    }
                    None
                },
            }
        },
        Json::Array(items) => {
            proof {
                json::lemma_array_view(*items);
            }
            if items.len() != 7 {
                return None;
            }
            assert(json::items_view(items@) =~= seq![
                items@[0]@,
                items@[1]@,
                items@[2]@,
                items@[3]@,
                items@[4]@,
                items@[5]@,
                items@[6]@,
            ]);
            read_fields(
                &items[0],
                &items[1],
                &items[2],
                &items[3],
                &items[4],
                &items[5],
                &items[6],
            )
        },
        _ => None,
    }
}

/// The names of the fields are different.
proof fn lemma_field_names()
    ensures
        forall|i: int, j: int|
            0 <= i < j < 7 ==> #[trigger] field_names()[i] != #[trigger] field_names()[j],
{
    reveal_strlit("v");
    reveal_strlit("enrollment_url");
    reveal_strlit("controller_url");
    reveal_strlit("ca_fp_sha256");
    reveal_strlit("token_id");
    reveal_strlit("token_b64");
    reveal_strlit("expires_at");
    let n = field_names();
    assert(n[0].len() == 1 && n[1].len() == 14 && n[2].len() == 14 && n[3].len() == 12
        && n[4].len() == 8 && n[5].len() == 9 && n[6].len() == 10);
    assert(n[1][0] == 'e' && n[2][0] == 'c');
}

/// A text without white space is not trimmed.
proof fn lemma_trim_solid(s: Seq<char>)
    requires
        forall|i: int| 0 <= i < s.len() ==> crypto::url_safe(#[trigger] s[i]),
    ensures
        text::trim(s) == s,
{
    if s.len() > 0 {
        assert(crypto::url_safe(s[0]));
        assert(crypto::url_safe(s[s.len() - 1]));
    }
}

impl BootstrapBundle {
    /// Encode the bundle to its compact base64url-no-pad transport form.
    pub fn encode(&self) -> (s: String)
        ensures
            s@ == encoded(self@),
            decoded(s@) == (if self.v == 1 {
                Decoded::Bundle(self@)
            } else {
                Decoded::Version(self.v)
            }),
    {
        let mut members: Vec<(String, Json)> = Vec::new();
        members.push(("v".to_string(), json::integer(self.v as i64)));
        members.push(("enrollment_url".to_string(), Json::Str(self.enrollment_url.clone())));
        members.push(("controller_url".to_string(), Json::Str(self.controller_url.clone())));
        members.push(("ca_fp_sha256".to_string(), Json::Str(self.ca_fp_sha256.clone())));
        members.push(("token_id".to_string(), Json::Str(self.token_id.clone())));
        members.push(("token_b64".to_string(), Json::Str(self.token_b64.clone())));
        members.push(("expires_at".to_string(), json::integer(self.expires_at)));
        let ghost turn = json::in_turn(members@);
        let ghost m = json::members_view(members@);
        proof {
            lemma_field_names();
            assert(turn =~= bundle_members(self@));
            assert forall|i: int| 0 <= i < 7 implies (#[trigger] members@[i]).0@
                == field_names()[i] && members@[i].1@ == bundle_members(self@)[i].1
                && members@[i].1.wf() by {}
            assert(json::members_wf(members@)) by {
                assert forall|i: int, j: int| 0 <= i < j < members@.len() implies (
                #[trigger] members@[i]).0@ != (#[trigger] members@[j]).0@ by {
                    assert(field_names()[i] != field_names()[j]);
                }
            }
            assert forall|i: int| 0 <= i < 7 implies m.contains_key(#[trigger] field_names()[i])
                && m[field_names()[i]] == bundle_members(self@)[i].1 by {
                assert(members@[i].0@ == field_names()[i]);
                json::lemma_member(members@, i);
            }
            assert(json::re_readable(JsonView::Object(m), json::MAX_DEPTH as nat)) by {
                assert forall|k: Seq<char>| m.contains_key(k) implies json::re_readable(
                    #[trigger] m[k],
                    (json::MAX_DEPTH - 1) as nat,
                ) by {
                    let i = json::member_index(members@, k);
                    assert(0 <= i < 7 && members@[i].0@ == k);
                    json::lemma_member(members@, i);
                    assert(members@[i].1@ == bundle_members(self@)[i].1);
                }
            }
            assert(Seq::new(7, |i: int| m[field_names()[i]]) =~= Seq::new(
                7,
                |i: int| bundle_members(self@)[i].1,
            ));
            assert(bundle_of(JsonView::Object(m)) == Some(self@));
        }
        let printed = json::print_in_turn(members);
        let s = crypto::encode_base64(printed.as_str().as_bytes());
        proof {
            lemma_trim_solid(s@);
        }
        s
    }

    /// Decode a base64url-no-pad bundle. Surrounding white space is tolerated, such as
    /// a stray newline at the end; of members with the same name the last one counts.
    pub fn decode(s: &str) -> (r: Result<Self, BundleError>)
        ensures
            match decoded(s@) {
                Decoded::NotBase64 => r matches Err(BundleError::NotBase64),
                Decoded::Malformed => r matches Err(BundleError::Malformed),
                Decoded::Version(v) => r matches Err(BundleError::Version(w)) && w == v,
                Decoded::Bundle(b) => r matches Ok(x) && x@ == b,
            },
    {
        let trimmed = text::string_of(&text::trimmed(&text::chars_of(s)));
        let bytes = match crypto::decode_base64(trimmed.as_str()) {
            Some(b) => b,
            None => {
                return Err(BundleError::NotBase64);
            },
        };
        let j = match json::parse_bytes(bytes.as_slice()) {
            Ok(j) => j,
            Err(_) => {
                return Err(BundleError::Malformed);
            },
        };
        match read_bundle(&j) {
            None => Err(BundleError::Malformed),
            Some(b) => if b.v != 1 {
                Err(BundleError::Version(b.v))
            } else {
                Ok(b)
            },
        }
    }

    /// Decode the raw token secret from `token_b64`.
    pub fn token_bytes(&self) -> (r: Result<Vec<u8>, BundleError>)
        ensures
            match r {
                Ok(b) => crypto::base64_bytes(self.token_b64@) == Some(b@),
                Err(e) => e is TokenNotBase64 && crypto::base64_bytes(self.token_b64@) is None,
            },
    {
        match crypto::decode_base64(self.token_b64.as_str()) {
            Some(b) => Ok(b),
            None => Err(BundleError::TokenNotBase64),
        }
    }

    /// Decode the CA fingerprint as 32 raw bytes.
    pub fn ca_fingerprint_bytes(&self) -> (r: Result<[u8; 32], BundleError>)
        ensures
            match r {
                Ok(fp) => crypto::hex_bytes(self.ca_fp_sha256@) == Some(fp@),
                Err(BundleError::FingerprintNotHex) => crypto::hex_bytes(self.ca_fp_sha256@) is None,
                Err(BundleError::FingerprintLength(n)) => n != 32 && (crypto::hex_bytes(
                    self.ca_fp_sha256@,
                ) matches Some(b) && n == b.len()),
                Err(_) => false,
            },
    {
        match crypto::decode_hex(self.ca_fp_sha256.as_str()) {
            None => Err(BundleError::FingerprintNotHex),
            Some(b) => if b.len() == 32 {
                Ok(crypto::array_of(b.as_slice()))
            } else {
                Err(BundleError::FingerprintLength(b.len()))
            },
        }
    }
}

/// Why a token is not minted.
#[derive(Clone, Copy, Debug, PartialEq, Eq, Structural)]
pub enum MintError {
    MaxUses,
    Ttl,
}

impl MintError {
    /// The text of the error.
    pub open spec fn message(self) -> Seq<char> {
        match self {
            MintError::MaxUses => "max_uses must be positive"@,
            MintError::Ttl => "ttl must be positive"@,
        }
    }

    /// The text of the error.
    pub fn to_text(&self) -> (s: String)
        ensures
            s@ == self.message(),
    {
        match self {
            MintError::MaxUses => "max_uses must be positive".to_string(),
            MintError::Ttl => "ttl must be positive".to_string(),
        }
    }
}

/// For whom and how a token is to be minted.
pub struct TokenRequest {
    pub enrollment_url: String,
    pub controller_url: String,
    pub ttl: TimeSpan,
    pub max_uses: i64,
    pub cidr_scope: Option<String>,
    pub fleet_label: Option<String>,
    pub created_by: Option<String>,
    pub tenant_id: String,
}

impl TokenRequest {
    /// Whether the token can be minted at that time: a date names its expiry, where it
    /// has one.
    pub open spec fn datable(self, now: Timestamp) -> bool {
        &&& now.wf()
        &&& self.ttl.nanos < timestamp::NANOS_PER_SEC
        &&& self.max_uses > 0 && self.ttl.length() > 0 ==> now.reaches_span(self.ttl)
    }

    /// Why the token is refused, if it is.
    pub open spec fn refused(self) -> Option<MintError> {
        if self.max_uses <= 0 {
            Some(MintError::MaxUses)
        } else if self.ttl.length() <= 0 {
            Some(MintError::Ttl)
        } else {
            None
        }
    }
}

/// The bundle of a token.
pub open spec fn minted_bundle(
    req: TokenRequest,
    fingerprint: Seq<u8>,
    token_id: Seq<char>,
    secret: Seq<u8>,
    expires_at: Timestamp,
) -> BundleView {
    BundleView {
        v: 1,
        enrollment_url: req.enrollment_url@,
        controller_url: req.controller_url@,
        ca_fp_sha256: crypto::hex_text(fingerprint),
        token_id,
        token_b64: crypto::base64_text(secret),
        expires_at: expires_at.secs,
    }
}

/// The record of a token. It holds the hash of the secret and not the secret.
pub open spec fn minted_record(
    req: TokenRequest,
    token_id: Seq<char>,
    secret: Seq<u8>,
    now: Timestamp,
    expires_at: Timestamp,
) -> TokenView {
    TokenView {
        token_id,
        token_hash: crypto::sha256(secret),
        created_at: now,
        created_by: text::opt_text(req.created_by),
        expires_at,
        uses_remaining: req.max_uses,
        cidr_scope: text::opt_text(req.cidr_scope),
        fleet_label: text::opt_text(req.fleet_label),
        revoked_at: None,
        tenant_id: req.tenant_id@,
    }
}

/// Whether record and answer are those of a token with this id and secret: it expires
/// its lifetime after now, and the bundle that is handed out holds the secret.
pub open spec fn is_minted(
    req: TokenRequest,
    fingerprint: Seq<u8>,
    token_id: Seq<char>,
    secret: Seq<u8>,
    now: Timestamp,
    record: EnrollmentTokenRecord,
    issued: IssuedToken,
) -> bool {
    let bundle = minted_bundle(req, fingerprint, token_id, secret, issued.expires_at);
    &&& issued.expires_at.wf()
    &&& issued.expires_at.instant() == now.instant() + req.ttl.length()
    &&& record@ == minted_record(req, token_id, secret, now, issued.expires_at)
    &&& issued.token_id@ == token_id
    &&& issued.uses_remaining == req.max_uses
    &&& issued.bundle@ == encoded(bundle)
    &&& decoded(issued.bundle@) == Decoded::Bundle(bundle)
    &&& crypto::base64_bytes(bundle.token_b64) == Some(secret)
}

/// Mints a token with this id and secret.
pub fn mint_with_secret(
    req: TokenRequest,
    ca_fingerprint_sha256: &[u8; 32],
    token_id: String,
    secret: Vec<u8>,
    now: Timestamp,
) -> (r: Result<(EnrollmentTokenRecord, IssuedToken), MintError>)
    requires
        req.datable(now),
    ensures
        match r {
            Ok((record, issued)) => req.refused() is None && is_minted(
                req,
                ca_fingerprint_sha256@,
                token_id@,
                secret@,
                now,
                record,
                issued,
            ),
            Err(e) => req.refused() == Some(e),
        },
{
    if req.max_uses <= 0 {
        return Err(MintError::MaxUses);
    }
    if !req.ttl.is_positive() {
        return Err(MintError::Ttl);
    }
    let token_hash = crypto::digest(secret.as_slice());
    let expires_at = now.plus(&req.ttl);
    let bundle = BootstrapBundle {
        v: 1,
        enrollment_url: req.enrollment_url,
        controller_url: req.controller_url,
        ca_fp_sha256: crypto::encode_hex(ca_fingerprint_sha256.as_slice()),
        token_id: token_id.clone(),
        token_b64: crypto::encode_base64(secret.as_slice()),
        expires_at: expires_at.secs,
    };
    let record = EnrollmentTokenRecord {
        token_id: token_id.clone(),
        token_hash,
        created_at: now,
        created_by: req.created_by,
        expires_at,
        uses_remaining: req.max_uses,
        cidr_scope: req.cidr_scope,
        fleet_label: req.fleet_label,
        revoked_at: None,
        tenant_id: req.tenant_id,
    };
    let issued = IssuedToken {
        token_id,
        bundle: bundle.encode(),
        expires_at,
        uses_remaining: req.max_uses,
    };
    Ok((record, issued))
}

/// Mints a token with a random id and a fresh secret.
pub fn mint_afresh(req: TokenRequest, ca_fingerprint_sha256: &[u8; 32], now: Timestamp) -> (r:
    Result<(EnrollmentTokenRecord, IssuedToken), MintError>)
    requires
        req.datable(now),
    ensures
        match r {
            Ok((record, issued)) => req.refused() is None && is_minted_afresh(
                req,
                ca_fingerprint_sha256@,
                now,
                record,
                issued,
            ),
            Err(e) => req.refused() == Some(e),
        },
{
    let token_id = ids::new_uuid();
    let secret = crypto::random_bytes(TOKEN_SECRET_BYTES);
    let ghost id = token_id@;
    let ghost hidden = secret@;
    let r = mint_with_secret(req, ca_fingerprint_sha256, token_id, secret, now);
    proof {
        if r is Ok {
            let pair = r->Ok_0;
            assert(is_minted(req, ca_fingerprint_sha256@, id, hidden, now, pair.0, pair.1));
        }
    }
    r
}

/// Build a fresh token + bundle pair.
///
/// Returns:
/// - the `EnrollmentTokenRecord` to persist (contains only the hash, never the secret).
/// - the [`IssuedToken`] to show the operator (contains the bundle to distribute).
///
/// The raw token secret exists only inside the returned bundle string; after
/// this function returns, the controller cannot reconstruct it.
pub fn mint_token(
    enrollment_url: String,
    controller_url: String,
    ca_fingerprint_sha256: &[u8; 32],
    ttl: TimeSpan,
    max_uses: i64,
    cidr_scope: Option<String>,
    fleet_label: Option<String>,
    created_by: Option<String>,
    tenant_id: String,
    now: Timestamp,
) -> (r: Result<(EnrollmentTokenRecord, IssuedToken), MintError>)
    requires
        now.wf(),
        ttl.nanos < timestamp::NANOS_PER_SEC,
        max_uses > 0 && ttl.length() > 0 ==> now.reaches_span(ttl),
    ensures
        ({
            let req = TokenRequest {
                enrollment_url,
                controller_url,
                ttl,
                max_uses,
                cidr_scope,
                fleet_label,
                created_by,
                tenant_id,
            };
            match r {
                Ok((record, issued)) => req.refused() is None && is_minted_afresh(
                    req,
                    ca_fingerprint_sha256@,
                    now,
                    record,
                    issued,
                ),
                Err(e) => req.refused() == Some(e),
            }
        }),
{
    let req = TokenRequest {
        enrollment_url,
        controller_url,
        ttl,
        max_uses,
        cidr_scope,
        fleet_label,
        created_by,
        tenant_id,
    };
    mint_afresh(req, ca_fingerprint_sha256, now)
}

/// Whether record and answer are those of a token with a random id and a secret of
/// 32 bytes.
pub open spec fn is_minted_afresh(
    req: TokenRequest,
    fingerprint: Seq<u8>,
    now: Timestamp,
    record: EnrollmentTokenRecord,
    issued: IssuedToken,
) -> bool {
    exists|token_id: Seq<char>, secret: Seq<u8>|
        {
            &&& ids::uuid_shaped(token_id)
            &&& secret.len() == TOKEN_SECRET_BYTES
            &&& #[trigger] is_minted(req, fingerprint, token_id, secret, now, record, issued)
        }
}

/// Hash a token secret for comparison against the stored hash.
pub fn hash_token_secret(secret: &[u8]) -> (r: [u8; 32])
    ensures
        r@ == crypto::sha256(secret@),
{
    crypto::array_of(crypto::digest(secret).as_slice())
}

} // verus!

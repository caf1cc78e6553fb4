//! Operator accounts for controller-web.
//!
//! What may become an account, when a password opens one, and when a stored hash is
//! renewed. It does **not** mint session tokens: that is the login endpoint's job.
//!
//! Password hashing is argon2id with the `argon2` crate's default params.
//! The full PHC string is stored, so cost can be retuned without a
//! migration: future verifies still work against historical hashes, and
//! re-hashing on next successful login is the upgrade path.

use crate::text;
use vstd::prelude::*;

verus! {

broadcast use vstd::string::group_string_axioms;

/// Default session lifetime when the login endpoint mints a session token, in seconds.
/// 12 hours is long enough that a working day doesn't get interrupted and
/// short enough that an unattended browser doesn't stay logged in indefinitely.
/// Operators can revoke earlier via logout.
pub const SESSION_TTL_S: i64 = 43200;

/// How many bytes a password has at least.
pub const MIN_PASSWORD_LEN: usize = 8;

/// A well-formed hash that no password is checked against in earnest. It keeps the
/// "user not found" path running argon2 so it doesn't return faster than
/// the "user found, wrong password" path. Only the time spent matters.
pub const DUMMY_HASH: &'static str =
    "$argon2id$v=19$m=19456,t=2,p=1$c2FsdHNhbHRzYWx0c2FsdA$rj3iA9hxYsNvz5dXyKMaTQ";

pub struct Operator {
    pub id: i64,
    pub username: String,
    pub created_at: i64,
    pub last_login_at: Option<i64>,
    pub disabled_at: Option<i64>,
}

/// Why an account is not made, or cannot be checked.
#[derive(Debug)]
pub enum OperatorError {
    EmptyUsername,
    ShortPassword,
    /// The password could not be hashed, and why.
    Hash(String),
    /// What is stored for the user is no hash, and why.
    MalformedHash { username: String, reason: String },
}

impl OperatorError {
    /// The text of the error.
    pub open spec fn message(self) -> Seq<char> {
        match self {
            OperatorError::EmptyUsername => "username cannot be empty"@,
            OperatorError::ShortPassword => "password must be at least 8 characters"@,
            OperatorError::Hash(e) => "argon2 hash failed: "@ + e@,
            OperatorError::MalformedHash { username, reason } => "malformed stored hash for "@
                + username@ + ": "@ + reason@,
        }
    }

    /// The text of the error.
    pub fn to_text(&self) -> (s: String)
        ensures
            s@ == self.message(),
    {
        match self {
            OperatorError::EmptyUsername => "username cannot be empty".to_string(),
            OperatorError::ShortPassword => "password must be at least 8 characters".to_string(),
            OperatorError::Hash(e) => text::concat2("argon2 hash failed: ", e.as_str()),
            OperatorError::MalformedHash { username, reason } => text::concat4(
                "malformed stored hash for ",
                username.as_str(),
                ": ",
                reason.as_str(),
            ),
        }
    }
}

/// What a stored hash says of how it was made.
pub struct StoredHash {
    /// The name of the algorithm.
    pub algorithm: String,
    /// The parameters: `key=value` pairs with commas between them.
    pub params: String,
}

/// What a stored hash says of how it was made.
pub struct StoredHashView {
    pub algorithm: Seq<char>,
    pub params: Seq<char>,
}

impl View for StoredHash {
    type V = StoredHashView;

    open spec fn view(&self) -> StoredHashView {
        StoredHashView { algorithm: self.algorithm@, params: self.params@ }
    }
}

/// What reading a PHC string comes to: what it says, or why it is none.
pub uninterp spec fn phc_reading(s: Seq<char>) -> Result<StoredHashView, Seq<char>>;

/// Whether a PHC string is a hash of the password.
pub uninterp spec fn opens(hash: Seq<char>, password: Seq<u8>) -> bool;

/// `PasswordHash::new`: what a PHC string says of algorithm and parameters, or why it is
/// not well formed. It depends on the string alone.
#[verifier::external_body]
fn read_hash(s: &str) -> (r: Result<StoredHash, String>)
    ensures
        match phc_reading(s@) {
            Ok(v) => r matches Ok(h) && h@ == v,
            Err(e) => r matches Err(t) && t@ == e,
        },
{
    match argon2::password_hash::PasswordHash::new(s) {
        Ok(h) => Ok(
            StoredHash { algorithm: h.algorithm.to_string(), params: h.params.to_string() },
        ),
        Err(e) => Err(e.to_string()),
    }
}

/// `Argon2::verify_password` on a well-formed hash: whether hashing the password in the
/// way that the hash names gives the same output. It depends on both alone.
#[verifier::external_body]
fn verify_hash(hash: &str, password: &[u8]) -> (r: bool)
    requires
        phc_reading(hash@) is Ok,
    ensures
        r == opens(hash@, password@),
{
    match argon2::password_hash::PasswordHash::new(hash) {
        Ok(h) => argon2::PasswordVerifier::verify_password(
            &argon2::Argon2::default(),
            password,
            &h,
        ).is_ok(),
        Err(_) => false,
    }
}

/// `Argon2::hash_password` with the crate's defaults and a salt from the system's
/// generator: a hash that says how it was made, and that the password opens. Which hash
/// rests on chance. It refuses a password just where that is longer than `MAX_PWD_LEN`.
#[verifier::external_body]
fn hash_afresh(password: &[u8]) -> (r: Result<String, String>)
    ensures
        r is Ok <==> password@.len() <= 0xffff_ffff,
        r matches Ok(h) ==> opens(h@, password@) && (phc_reading(h@) matches Ok(v) && v.algorithm
            == "argon2id"@ && v.params == "m=19456,t=2,p=1"@),
{
    let salt = argon2::password_hash::SaltString::generate(
        &mut argon2::password_hash::rand_core::OsRng,
    );
    argon2::PasswordHasher::hash_password(&argon2::Argon2::default(), password, &salt).map(
        |h| h.to_string(),
    ).map_err(|e| e.to_string())
}

/// `Params::default`: the memory in KiB, the passes and the lanes that hashing takes now.
#[verifier::external_body]
fn current_costs() -> (r: (u32, u32, u32))
    ensures
        r == (19456u32, 2u32, 1u32),
{
    let p = argon2::Params::default();
    (p.m_cost(), p.t_cost(), p.p_cost())
}

/// The number that a `key=value` pair gives the key.
pub open spec fn pair_value(pair: Seq<char>, key: Seq<char>) -> Option<nat> {
    match text::find(pair, '=') {
        None => None,
        Some(i) => if pair.take(i) == key {
            text::parse_nat(pair.skip(i + 1), u32::MAX as nat)
        } else {
            None
        },
    }
}

/// The number that parameters give the key: that of the first pair that gives it one.
pub open spec fn param(params: Seq<char>, key: Seq<char>) -> Option<nat>
    decreases params.len(),
{
    match text::find(params, ',') {
        None => pair_value(params, key),
        Some(i) => match pair_value(params.take(i), key) {
            Some(n) => Some(n),
            None => if 0 <= i < params.len() {
                param(params.skip(i + 1), key)
            } else {
                None
            },
        },
    }
}

/// Whether a hash was made otherwise than hashes are made now.
pub open spec fn stale(h: StoredHashView) -> bool {
    ||| h.algorithm != "argon2id"@
    ||| param(h.params, "m"@) != Some(19456nat)
    ||| param(h.params, "t"@) != Some(2nat)
    ||| param(h.params, "p"@) != Some(1nat)
}

/// The number that a `key=value` pair gives the key.
fn read_pair(pair: &Vec<char>, key: &str) -> (r: Option<u32>)
    ensures
        match pair_value(pair@, key@) {
            Some(n) => r matches Some(v) && v == n,
            None => r is None,
        },
{
    match text::find_char(pair, '=') {
        None => None,
        Some(i) => {
            let k = text::slice(pair, 0, i);
            let v = text::slice(pair, i + 1, pair.len());
            proof {
                assert(k@ =~= pair@.take(i as int));
                assert(v@ =~= pair@.skip(i + 1));
            }
            if text::same(text::string_of(&k).as_str(), key) {
                text::parse_u32(&v)
            } else {
                None
            }
        },
    }
}

/// The number that parameters give the key.
fn read_param(params: &str, key: &str) -> (r: Option<u32>)
    ensures
        match param(params@, key@) {
            Some(n) => r matches Some(v) && v == n,
            None => r is None,
        },
{
    let mut rest = text::chars_of(params);
    let ghost goal = param(params@, key@);
    loop
        invariant
            goal == param(rest@, key@),
            goal == param(params@, key@),
        decreases rest@.len(),
    {
        match text::find_char(&rest, ',') {
            None => {
                return read_pair(&rest, key);
            },
            Some(i) => {
                let pair = text::slice(&rest, 0, i);
                assert(pair@ =~= rest@.take(i as int));
                match read_pair(&pair, key) {
                    Some(n) => {
                        return Some(n);
                    },
                    None => {},
                }
                let next = text::slice(&rest, i + 1, rest.len());
                assert(next@ =~= rest@.skip(i + 1));
                rest = next;
            },
        }
    }
}

/// True when the stored PHC hash should be upgraded on the next successful
/// login: wrong algorithm or params that differ from the current defaults.
pub fn hash_is_stale(parsed: &StoredHash) -> (r: bool)
    ensures
        r == stale(parsed@),
{
    if !text::same(parsed.algorithm.as_str(), "argon2id") {
        return true;
    }
    let (m, t, p) = current_costs();
    match (
        read_param(parsed.params.as_str(), "m"),
        read_param(parsed.params.as_str(), "t"),
        read_param(parsed.params.as_str(), "p"),
    ) {
        (Some(hm), Some(ht), Some(hp)) => hm != m || ht != t || hp != p,
        _ => true,
    }
}

/// What a PHC string says of how it was made, or why it is none.
pub fn parse_hash(s: &str) -> (r: Result<StoredHash, String>)
    ensures
        match phc_reading(s@) {
            Ok(v) => r matches Ok(h) && h@ == v,
            Err(e) => r matches Err(t) && t@ == e,
        },
{
    read_hash(s)
}

/// Whether a password is short enough to be hashed.
pub open spec fn hashable(password: Seq<char>) -> bool {
    vstd::utf8::encode_utf8(password).len() <= 0xffff_ffff
}

/// A hash of the password, made as hashes are made now; refused only where the password is
/// too long to be hashed. Which hash it is rests on chance.
pub fn hash_password(password: &str) -> (r: Result<String, OperatorError>)
    ensures
        if hashable(password@) {
            r matches Ok(h) && is_fresh(h@, password@)
        } else {
            r matches Err(OperatorError::Hash(_))
        },
{
    match hash_afresh(password.as_bytes()) {
        Ok(h) => {
            proof {
                current_is_not_stale();
            }
            Ok(h)
        },
        Err(e) => Err(OperatorError::Hash(e)),
    }
}

/// Whether a hash is one of the password, made as hashes are made now.
pub open spec fn is_fresh(hash: Seq<char>, password: Seq<char>) -> bool {
    &&& opens(hash, vstd::utf8::encode_utf8(password))
    &&& phc_reading(hash) matches Ok(h)
    &&& !stale(h)
}

/// A hash with the current algorithm and parameters is not stale.
pub proof fn current_is_not_stale()
    ensures
        !stale(StoredHashView { algorithm: "argon2id"@, params: "m=19456,t=2,p=1"@ }),
{
    let s = "m=19456,t=2,p=1"@;
    reveal_strlit("m=19456,t=2,p=1");
    reveal_strlit("m");
    reveal_strlit("t");
    reveal_strlit("p");
    let m = s.take(7);
    let s1 = s.skip(8);
    let t = s1.take(3);
    let s2 = s1.skip(4);
    text::lemma_find_some(s, ',', 7);
    text::lemma_find_some(s1, ',', 3);
    text::lemma_find(s2, ',');
    text::lemma_find_some(m, '=', 1);
    text::lemma_find_some(t, '=', 1);
    text::lemma_find_some(s2, '=', 1);
    assert(m.take(1) =~= "m"@);
    assert(t.take(1) =~= "t"@);
    assert(s2.take(1) =~= "p"@);
    assert("m"@[0] == 'm' && "t"@[0] == 't' && "p"@[0] == 'p');
    let d = m.skip(2);
    assert(text::decimal_value(d) == 19456) by {
        reveal_with_fuel(text::decimal_value, 6);
        assert(d.len() == 5);
        assert(d[0] == '1' && d[1] == '9' && d[2] == '4' && d[3] == '5' && d[4] == '6');
    }
    assert(text::decimal_value(t.skip(2)) == 2) by {
        reveal_with_fuel(text::decimal_value, 2);
        assert(t.skip(2).len() == 1);
    }
    assert(text::decimal_value(s2.skip(2)) == 1) by {
        reveal_with_fuel(text::decimal_value, 2);
        assert(s2.skip(2).len() == 1);
    }
    reveal_with_fuel(param, 3);
    assert(pair_value(m, "m"@) == Some(19456nat));
    assert(pair_value(t, "t"@) == Some(2nat));
    assert(pair_value(s2, "p"@) == Some(1nat));
    assert(pair_value(m, "t"@) is None);
    assert(pair_value(m, "p"@) is None);
    assert(pair_value(t, "p"@) is None);
}

/// What a new account is made of.
pub struct NewOperator {
    pub username: String,
    pub password_hash: String,
}

/// Looks whether the two may make an account, and gives the name without the white space
/// around it.
pub fn validate_new(username: &str, password: &str) -> (r: Result<String, OperatorError>)
    ensures
        if text::trim(username@).len() == 0 {
            r matches Err(OperatorError::EmptyUsername)
        } else if vstd::utf8::encode_utf8(password@).len() < MIN_PASSWORD_LEN {
            r matches Err(OperatorError::ShortPassword)
        } else {
            r matches Ok(name) && name@ == text::trim(username@)
        },
{
    let name = text::trimmed(&text::chars_of(username));
    if name.len() == 0 {
        return Err(OperatorError::EmptyUsername);
    }
    if password.as_bytes().len() < MIN_PASSWORD_LEN {
        return Err(OperatorError::ShortPassword);
    }
    Ok(text::string_of(&name))
}

/// What a new account is made of; refused for an empty name, a short password, or one that
/// is too long to be hashed.
pub fn create(username: &str, password: &str) -> (r: Result<NewOperator, OperatorError>)
    ensures
        if text::trim(username@).len() == 0 {
            r matches Err(OperatorError::EmptyUsername)
        } else if vstd::utf8::encode_utf8(password@).len() < MIN_PASSWORD_LEN {
            r matches Err(OperatorError::ShortPassword)
        } else if hashable(password@) {
            r matches Ok(n) && n.username@ == text::trim(username@) && is_fresh(
                n.password_hash@,
                password@,
            )
        } else {
            r matches Err(OperatorError::Hash(_))
        },
{
    let username = match validate_new(username, password) {
        Ok(name) => name,
        Err(e) => {
            return Err(e);
        },
    };
    match hash_password(password) {
        Ok(password_hash) => Ok(NewOperator { username, password_hash }),
        Err(e) => Err(e),
    }
}

/// The hash to store for a new password; refused for a short one, or one that is too long
/// to be hashed.
pub fn set_password(new_password: &str) -> (r: Result<String, OperatorError>)
    ensures
        if vstd::utf8::encode_utf8(new_password@).len() < MIN_PASSWORD_LEN {
            r matches Err(OperatorError::ShortPassword)
        } else if hashable(new_password@) {
            r matches Ok(h) && is_fresh(h@, new_password@)
        } else {
            r matches Err(OperatorError::Hash(_))
        },
{
    if new_password.as_bytes().len() < MIN_PASSWORD_LEN {
        return Err(OperatorError::ShortPassword);
    }
    hash_password(new_password)
}

/// An account and the hash that is stored for it.
pub struct Credentials {
    pub operator: Operator,
    pub password_hash: String,
}

/// A login that succeeded.
pub struct Verified {
    pub operator: Operator,
    /// The hash to store from now on, where the one on record is stale.
    pub rehash: Option<String>,
}

/// What checking a password comes to.
pub enum CheckView {
    /// The stored hash is malformed, and why.
    Malformed(Seq<char>),
    /// Unknown user, bad password or disabled account.
    Refused,
    /// The password opens the account; whether its hash is stale.
    Opened { stale: bool },
}

/// What checking a password against the account on record comes to.
pub open spec fn check(found: Option<Credentials>, password: Seq<char>) -> CheckView {
    match found {
        None => CheckView::Refused,
        Some(c) => match phc_reading(c.password_hash@) {
            Err(e) => CheckView::Malformed(e),
            Ok(h) => if !opens(c.password_hash@, vstd::utf8::encode_utf8(password))
                || c.operator.disabled_at is Some {
                CheckView::Refused
            } else {
                CheckView::Opened { stale: stale(h) }
            },
        },
    }
}

/// The hash to store after a login, given what became of making the password's hash anew:
/// the new hash where the one on record is outdated and it could be made.
pub fn upgrade(outdated: bool, made: Result<String, OperatorError>) -> (r: Option<String>)
    ensures
        r == (if outdated && made is Ok {
            Some(made->Ok_0)
        } else {
            None
        }),
{
    match made {
        Ok(h) => {
            if outdated {
                Some(h)
            } else {
                None
            }
        },
        Err(_) => None,
    }
}

/// Authenticate `(username, password)`, given the account on record under that name.
/// Returns the operator on success, `Ok(None)` on any failure (unknown user, bad
/// password, disabled account): callers MUST treat all failures identically to avoid
/// user-enumeration.
///
/// A stale hash is made anew (see [`upgrade`]), unless the password is too long to be
/// hashed; that this fails never prevents a successful login.
pub fn verify_password(found: Option<Credentials>, username: &str, password: &str) -> (r: Result<
    Option<Verified>,
    OperatorError,
>)
    ensures
        match check(found, password@) {
            CheckView::Malformed(e) => r matches Err(
                OperatorError::MalformedHash { username: u, reason },
            ) && u@ == username@ && reason@ == e,
            CheckView::Refused => r matches Ok(None),
            CheckView::Opened { stale: outdated } => {
                &&& r matches Ok(Some(v))
                &&& found matches Some(c)
                &&& v.operator == c.operator
                &&& v.rehash is Some <==> outdated && hashable(password@)
                &&& v.rehash matches Some(h) ==> is_fresh(h@, password@)
            },
        },
{
    let c = match found {
        Some(c) => c,
        None => {
            // Still run a dummy verify to keep timing similar to the hit path.
            if read_hash(DUMMY_HASH).is_ok() {
                verify_hash(DUMMY_HASH, password.as_bytes());
            }
            return Ok(None);
        },
    };
    let parsed = match read_hash(c.password_hash.as_str()) {
        Ok(h) => h,
        Err(reason) => {
            return Err(OperatorError::MalformedHash { username: username.to_string(), reason });
        },
    };
    if !verify_hash(c.password_hash.as_str(), password.as_bytes()) {
        return Ok(None);
    }
    if c.operator.disabled_at.is_some() {
        return Ok(None);
    }
    let rehash: Option<String> = if hash_is_stale(&parsed) {
        upgrade(true, hash_password(password))
    } else {
        None
    };
    Ok(Some(Verified { operator: c.operator, rehash }))
}

/// What a password was made into opens again to it, and needs no renewal, as long as the
/// account is not disabled.
pub proof fn password_comes_back(operator: Operator, hash: String, password: Seq<char>)
    requires
        is_fresh(hash@, password),
        operator.disabled_at is None,
    ensures
        check(Some(Credentials { operator, password_hash: hash }), password) == (
        CheckView::Opened { stale: false }),
{
}

/// No password opens a disabled account.
pub proof fn disabled_account_is_refused(c: Credentials, password: Seq<char>)
    requires
        c.operator.disabled_at is Some,
    ensures
        check(Some(c), password) !is Opened,
{
}

/// A password opens an account just where there is one, its hash can be read, the password
/// opens the hash, and nobody has disabled the account.
pub proof fn password_opens_just_where(found: Option<Credentials>, password: Seq<char>)
    ensures
        check(found, password) is Opened <==> {
            &&& found is Some
            &&& phc_reading(found->0.password_hash@) is Ok
            &&& opens(found->0.password_hash@, vstd::utf8::encode_utf8(password))
            &&& found->0.operator.disabled_at is None
        },
{
}

/// The parameters of a hash as they are written down: how much memory, how many passes and
/// how many lanes it takes.
pub open spec fn written_costs(m: nat, t: nat, p: nat) -> Seq<char> {
    seq!['m', '='] + text::decimal(m) + seq![',', 't', '='] + text::decimal(t) + seq![
        ',',
        'p',
        '=',
    ] + text::decimal(p)
}

/// The costs of a hash are read as they were written down, each as what it is.
pub proof fn costs_are_read_as_written(m: nat, t: nat, p: nat)
    requires
        m <= u32::MAX,
        t <= u32::MAX,
        p <= u32::MAX,
    ensures
        param(written_costs(m, t, p), "m"@) == Some(m),
        param(written_costs(m, t, p), "t"@) == Some(t),
        param(written_costs(m, t, p), "p"@) == Some(p),
{
    reveal_strlit("m");
    reveal_strlit("t");
    reveal_strlit("p");
    assert("m"@ =~= seq!['m'] && "t"@ =~= seq!['t'] && "p"@ =~= seq!['p']);
    assert(seq!['m'][0] != seq!['t'][0] && seq!['m'][0] != seq!['p'][0] && seq!['t'][0]
        != seq!['p'][0]);
    let whole = written_costs(m, t, p);
    let first = seq!['m', '='] + text::decimal(m);
    let second = seq!['t', '='] + text::decimal(t);
    let third = seq!['p', '='] + text::decimal(p);
    let rest = second + seq![','] + third;
    lemma_pair('m', m, 'm');
    lemma_pair('m', m, 't');
    lemma_pair('m', m, 'p');
    lemma_pair('t', t, 't');
    lemma_pair('t', t, 'p');
    lemma_pair('p', p, 'p');
    assert(whole =~= first + seq![','] + rest);
    lemma_first_pair(first, rest);
    lemma_first_pair(second, third);
    reveal_with_fuel(param, 3);
}

/// A pair gives its key its number, and no other key one; it holds no comma.
proof fn lemma_pair(key: char, n: nat, asked: char)
    requires
        n <= u32::MAX,
        key != '=',
        key != ',',
    ensures
        !(seq![key, '='] + text::decimal(n)).contains(','),
        pair_value(seq![key, '='] + text::decimal(n), seq![asked]) == (if asked == key {
            Some(n)
        } else {
            None
        }),
{
    let d = text::decimal(n);
    let pair = seq![key, '='] + d;
    text::decimal_round_trip(n);
    assert(text::is_digit(d[0]));
    assert(pair[0] == key && pair[1] == '=');
    text::lemma_find_some(pair, '=', 1);
    assert(pair.take(1) =~= seq![key]);
    assert(seq![key][0] == key && seq![asked][0] == asked);
    assert(pair.skip(2) =~= d);
    assert forall|i: int| 0 <= i < pair.len() implies pair[i] != ',' by {
        if i >= 2 {
            assert(pair[i] == d[i - 2]);
            assert(text::is_digit(d[i - 2]));
        }
    }
}

/// What stands before the first comma of parameters is their first pair.
proof fn lemma_first_pair(first: Seq<char>, rest: Seq<char>)
    requires
        !first.contains(','),
    ensures
        ({
            let s = first + seq![','] + rest;
            &&& text::find(s, ',') == Some(first.len() as int)
            &&& s.take(first.len() as int) == first
            &&& s.skip(first.len() as int + 1) == rest
        }),
{
    let s = first + seq![','] + rest;
    let n = first.len() as int;
    assert(s[n] == ',');
    assert forall|j: int| 0 <= j < n implies s[j] != ',' by {
        assert(s[j] == first[j]);
        assert(first.contains(first[j]));
    }
    text::lemma_find_some(s, ',', n);
    assert(s.take(n) =~= first);
    assert(s.skip(n + 1) =~= rest);
}

/// A hash is made anew just where it is none of Argon2id or takes other costs than a new
/// one does.
pub proof fn hash_is_stale_just_where(algorithm: Seq<char>, m: nat, t: nat, p: nat)
    requires
        m <= u32::MAX,
        t <= u32::MAX,
        p <= u32::MAX,
    ensures
        stale(StoredHashView { algorithm, params: written_costs(m, t, p) }) <==> !(algorithm
            == "argon2id"@ && m == 19456 && t == 2 && p == 1),
{
    costs_are_read_as_written(m, t, p);
}

/// An account is made just where its name is more than white space and its password has at
/// least eight bytes, and can be hashed; it has the name without the white space around it,
/// and a hash that the password opens.
pub proof fn account_needs_a_name_and_a_password(
    username: &str,
    password: &str,
    r: Result<NewOperator, OperatorError>,
)
    requires
        call_ensures(create, (username, password), r),
        hashable(password@),
    ensures
        r is Ok <==> text::trim(username@).len() > 0 && vstd::utf8::encode_utf8(password@).len()
            >= 8,
        r matches Ok(n) ==> n.username@ == text::trim(username@) && opens(
            n.password_hash@,
            vstd::utf8::encode_utf8(password@),
        ),
{
}

/// Whoever is let in is let in as the operator on record, and nobody is let in without one.
pub proof fn verified_is_the_operator_on_record(
    found: Option<Credentials>,
    username: &str,
    password: &str,
    r: Result<Option<Verified>, OperatorError>,
)
    requires
        call_ensures(verify_password, (found, username, password), r),
    ensures
        r matches Ok(Some(v)) ==> {
            &&& found is Some && v.operator == found->0.operator
            &&& found->0.operator.disabled_at is None
            &&& opens(found->0.password_hash@, vstd::utf8::encode_utf8(password@))
        },
        found is Some && phc_reading(found->0.password_hash@) is Ok && opens(
            found->0.password_hash@,
            vstd::utf8::encode_utf8(password@),
        ) && found->0.operator.disabled_at is None ==> (r matches Ok(Some(_))),
        found is None ==> (r matches Ok(None)),
{
}

} // verus!

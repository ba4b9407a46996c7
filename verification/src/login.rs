//! Login, in one of two modes:
//! - an external login server: credentials go to its endpoint, and who is an admin is that
//!   server's own decision, never re-implemented here;
//! - local accounts: an admin and, optionally, a viewer, checked against argon2 hashes.
//!
//! Failed attempts are throttled per IP and per email.

use vstd::prelude::*;

use crate::auth::Role;
use crate::config::LocalAccount;
use crate::i18n::I18n;
use crate::password::argon2_accepts;
use crate::password::verify;
use crate::security::email_key;
use crate::security::failed;
use crate::security::ip_key;
use crate::security::locked;
use crate::security::tidied;
use crate::security::LoginLimiter;
use crate::text::ascii_lower;
use crate::text::decimal;
use crate::text::decimal_text;
use crate::text::same;
use crate::text::to_ascii_lower;
use crate::text::trim;
use crate::text::trimmed;
use crate::weburl::opt_view;

verus! {

/// What the login form submits.
#[derive(Debug)]
pub struct LoginForm {
    pub email: String,
    pub password: String,
}

/// Who a login lets in, and the token to keep in the session (empty when there is none).
#[derive(Debug, PartialEq, Eq)]
pub struct Admission {
    pub role: Role,
    pub upstream_token: String,
}

/// Why a login attempt didn't produce a session. Only `Rejected` counts toward the brute-force
/// throttle: an unreachable login server says nothing about the password. Both carry a catalog
/// key; `Rejected` may also carry the login server's own message, shown as-is when present.
#[derive(Debug, PartialEq, Eq)]
pub enum LoginFailure {
    Rejected { key: String, upstream: Option<String> },
    Unavailable(String),
}

/// What a failure says, in the UI's language.
pub open spec fn failure_text(failure: LoginFailure, i18n: I18n) -> Seq<char> {
    match failure {
        LoginFailure::Rejected { key, upstream } => match upstream {
            Some(message) => message@,
            None => i18n.template(key@),
        },
        LoginFailure::Unavailable(key) => i18n.template(key@),
    }
}

impl LoginFailure {
    fn rejected(key: &str) -> (r: Self)
        ensures
            r matches LoginFailure::Rejected { key: k, upstream } && k@ == key@ && upstream is None,
    {
        LoginFailure::Rejected { key: key.to_owned(), upstream: None }
    }

    fn unavailable(key: &str) -> (r: Self)
        ensures
            r matches LoginFailure::Unavailable(k) && k@ == key@,
    {
        LoginFailure::Unavailable(key.to_owned())
    }

    /// What the failure says, in the UI's language.
    pub fn message(&self, i18n: &I18n) -> (r: String)
        ensures
            r@ == failure_text(*self, *i18n),
    {
        match self {
            LoginFailure::Rejected { key, upstream } => match upstream {
                Some(message) => message.clone(),
                None => i18n.line(key.as_str()),
            },
            LoginFailure::Unavailable(key) => i18n.line(key.as_str()),
        }
    }
}

/// Whether a failure was refused, for the reason that `want` is the key of.
pub open spec fn rejected_with(
    r: Result<Admission, LoginFailure>,
    want: Seq<char>,
    message: Option<Seq<char>>,
) -> bool {
    r matches Err(LoginFailure::Rejected { key, upstream }) && key@ == want && opt_view(upstream)
        == message
}

/// Whether a login could not be decided, for the reason that `want` is the key of.
pub open spec fn unavailable_with(r: Result<Admission, LoginFailure>, want: Seq<char>) -> bool {
    r matches Err(LoginFailure::Unavailable(key)) && key@ == want
}

/// Whether a login lets `role` in with a token.
pub open spec fn lets_in(
    r: Result<Admission, LoginFailure>,
    role: Role,
    token: Seq<char>,
) -> bool {
    r matches Ok(admission) && admission.role == role && admission.upstream_token@ == token
}

// ---------------------------------------------------------------------------------------
// Local accounts
// ---------------------------------------------------------------------------------------

/// Whether an email is an account's, whatever the case of its letters and the space around it.
pub open spec fn is_email(given: Seq<char>, account: Seq<char>) -> bool {
    ascii_lower(trim(given)) == ascii_lower(account)
}

/// What a login comes to, given whose password the given one is.
pub open spec fn local_role(
    given: Seq<char>,
    admin: Seq<char>,
    admin_password: bool,
    viewer: Option<Seq<char>>,
    viewer_password: bool,
) -> Option<Role> {
    if admin_password && is_email(given, admin) {
        Some(Role::Admin)
    } else if viewer is Some && viewer_password && is_email(given, viewer->0) {
        Some(Role::Viewer)
    } else {
        None
    }
}

fn email_is(given: &str, account: &str) -> (r: bool)
    ensures
        r == is_email(given@, account@),
{
    let clean = trimmed(given);
    let a = to_ascii_lower(clean.as_str());
    let b = to_ascii_lower(account);
    same(a.as_str(), b.as_str())
}

/// What a login comes to, given whose password the given one is.
pub fn password_verdict(
    email: &str,
    admin: &LocalAccount,
    admin_password: bool,
    viewer: &Option<LocalAccount>,
    viewer_password: bool,
) -> (r: Result<Admission, LoginFailure>)
    ensures
        match local_role(
            email@,
            admin.email@,
            admin_password,
            match viewer {
                Some(account) => Some(account.email@),
                None => None,
            },
            viewer_password,
        ) {
            Some(role) => lets_in(r, role, Seq::empty()),
            None => rejected_with(r, "login.invalid"@, None),
        },
{
    let none = String::new();
    proof {
        reveal_strlit("");
        assert(none@ =~= Seq::<char>::empty());
    }
    if admin_password && email_is(email, admin.email.as_str()) {
        return Ok(Admission { role: Role::Admin, upstream_token: none });
    }
    if let Some(account) = viewer {
        if viewer_password && email_is(email, account.email.as_str()) {
            return Ok(Admission { role: Role::Viewer, upstream_token: none });
        }
    }
    Err(LoginFailure::rejected("login.invalid"))
}

/// Checks the credentials against the local accounts. The password is verified even when the
/// email is wrong, so timing doesn't reveal which one failed.
pub fn authenticate_password(
    form: &LoginForm,
    admin: &LocalAccount,
    viewer: &Option<LocalAccount>,
) -> (r: Result<Admission, LoginFailure>)
    ensures
        match local_role(
            form.email@,
            admin.email@,
            argon2_accepts(form.password@, admin.password_hash@),
            match viewer {
                Some(account) => Some(account.email@),
                None => None,
            },
            match viewer {
                Some(account) => argon2_accepts(form.password@, account.password_hash@),
                None => false,
            },
        ) {
            Some(role) => lets_in(r, role, Seq::empty()),
            None => rejected_with(r, "login.invalid"@, None),
        },
{
    let admin_password = verify(form.password.as_str(), admin.password_hash.as_str());
    let viewer_password = match viewer {
        Some(account) => verify(form.password.as_str(), account.password_hash.as_str()),
        None => false,
    };
    password_verdict(form.email.as_str(), admin, admin_password, viewer, viewer_password)
}

// ---------------------------------------------------------------------------------------
// An external login server
// ---------------------------------------------------------------------------------------

/// What a login server's answer holds, each field where it is there and of its kind.
#[derive(Debug)]
pub struct LoginFields {
    pub error: Option<String>,
    pub is_admin: Option<bool>,
    pub access_token: Option<String>,
}

pub open spec fn field_views(fields: LoginFields) -> (
    Option<Seq<char>>,
    Option<bool>,
    Option<Seq<char>>,
) {
    (opt_view(fields.error), fields.is_admin, opt_view(fields.access_token))
}

pub open spec fn parsed_views(fields: Option<LoginFields>) -> Option<
    (Option<Seq<char>>, Option<bool>, Option<Seq<char>>),
> {
    match fields {
        Some(fields) => Some(field_views(fields)),
        None => None,
    }
}

/// Three fields of a JSON text by their names, as text, truth value and text; `None` where the
/// bytes are not JSON.
pub uninterp spec fn json_fields(
    body: Seq<u8>,
    text: Seq<char>,
    flag: Seq<char>,
    other: Seq<char>,
) -> Option<(Option<Seq<char>>, Option<bool>, Option<Seq<char>>)>;

/// Calls `serde_json::from_slice` for a `Value`, and reads three fields of it with `get`,
/// `as_str` and `as_bool`: named, with nothing said of which bytes are JSON.
#[verifier::external_body]
fn parse_fields(body: &[u8], text: &str, flag: &str, other: &str) -> (r: Option<LoginFields>)
    ensures
        parsed_views(r) == json_fields(body@, text@, flag@, other@),
{
    let value: serde_json::Value = serde_json::from_slice(body).ok()?;
    Some(
        LoginFields {
            error: value.get(text).and_then(|v| v.as_str()).map(str::to_string),
            is_admin: value.get(flag).and_then(|v| v.as_bool()),
            access_token: value.get(other).and_then(|v| v.as_str()).map(str::to_string),
        },
    )
}

/// What a login server's answer holds.
pub open spec fn login_fields(body: Seq<u8>) -> Option<
    (Option<Seq<char>>, Option<bool>, Option<Seq<char>>),
> {
    json_fields(body, "error"@, "is_admin"@, "access_token"@)
}

/// What came of asking the login server.
#[derive(Debug)]
pub enum LoginReply {
    Unreachable,
    Answered { status: u16, body: Vec<u8> },
}

/// What a readable answer decides.
pub fn upstream_verdict(status: u16, fields: LoginFields, allow_viewers: bool) -> (r: Result<
    Admission,
    LoginFailure,
>)
    ensures
        upstream_decides(status, field_views(fields), allow_viewers, r),
{
    if !(200 <= status && status < 300) {
        return Err(
            LoginFailure::Rejected { key: "login.invalid".to_owned(), upstream: fields.error },
        );
    }
    let is_admin = match fields.is_admin {
        Some(is_admin) => is_admin,
        None => false,
    };
    if !is_admin && !allow_viewers {
        return Err(LoginFailure::rejected("login.not_admin"));
    }
    let role = if is_admin {
        Role::Admin
    } else {
        Role::Viewer
    };
    match fields.access_token {
        Some(upstream_token) => Ok(Admission { role, upstream_token }),
        None => Err(LoginFailure::unavailable("login.no_token")),
    }
}

/// Whether `r` is what a readable answer decides: a refusal keeps the server's own message,
/// and a user without admin rights gets in as a viewer where viewers are allowed.
pub open spec fn upstream_decides(
    status: u16,
    fields: (Option<Seq<char>>, Option<bool>, Option<Seq<char>>),
    allow_viewers: bool,
    r: Result<Admission, LoginFailure>,
) -> bool {
    let admin = fields.1 == Some(true);
    if !(200 <= status < 300) {
        rejected_with(r, "login.invalid"@, fields.0)
    } else if !admin && !allow_viewers {
        rejected_with(r, "login.not_admin"@, None)
    } else {
        match fields.2 {
            Some(token) => lets_in(
                r,
                if admin {
                    Role::Admin
                } else {
                    Role::Viewer
                },
                token,
            ),
            None => unavailable_with(r, "login.no_token"@),
        }
    }
}

/// What the login server's reply decides.
pub fn authenticate_upstream(reply: LoginReply, allow_viewers: bool) -> (r: Result<
    Admission,
    LoginFailure,
>)
    ensures
        match reply {
            LoginReply::Unreachable => unavailable_with(r, "login.unreachable"@),
            LoginReply::Answered { status, body } => match login_fields(body@) {
                None => unavailable_with(r, "login.bad_response"@),
                Some(fields) => upstream_decides(status, fields, allow_viewers, r),
            },
        },
{
    match reply {
        LoginReply::Unreachable => Err(LoginFailure::unavailable("login.unreachable")),
        LoginReply::Answered { status, body } => match parse_fields(
            body.as_slice(),
            "error",
            "is_admin",
            "access_token",
        ) {
            None => Err(LoginFailure::unavailable("login.bad_response")),
            Some(fields) => upstream_verdict(status, fields, allow_viewers),
        },
    }
}

// ---------------------------------------------------------------------------------------
// Throttling
// ---------------------------------------------------------------------------------------

/// Whole minutes to wait, for a wait in milliseconds: rounded up, at least one.
pub open spec fn wait_minutes(wait: u64) -> nat {
    let secs = wait / 1000;
    if secs == 0 {
        1
    } else {
        ((secs - 1) / 60 + 1) as nat
    }
}

/// Why no attempt is made, in the UI's language, where the client or the account is locked out.
pub fn throttled(limiter: &mut LoginLimiter, ip: &str, email: &str, i18n: &I18n, now: u64) -> (r:
    Option<String>)
    requires
        old(limiter).wf(),
    ensures
        final(limiter).wf(),
        final(limiter)@ == tidied(
            tidied(old(limiter)@, ip_key(ip@), now),
            email_key(email@),
            now,
        ),
        match locked(old(limiter)@, ip@, email@, now) {
            Some(wait) => r is Some && r->0@ == i18n.message(
                "login.throttled"@,
                seq![("minutes"@, decimal(wait_minutes(wait)))],
            ),
            None => r is None,
        },
{
    match limiter.locked_for(ip, email, now) {
        None => None,
        Some(wait) => {
            let secs: u64 = wait / 1000;
            let minutes: u64 = if secs == 0 {
                1
            } else {
                (secs - 1) / 60 + 1
            };
            let text = decimal_text(minutes);
            Some(i18n.line1("login.throttled", "minutes", text.as_str()))
        },
    }
}

/// Counts what an attempt came to: a refusal against the client and the account, a success for
/// both, and an undecided attempt for neither.
pub fn count_attempt(
    limiter: &mut LoginLimiter,
    ip: &str,
    email: &str,
    outcome: &Result<Admission, LoginFailure>,
    now: u64,
)
    requires
        old(limiter).wf(),
    ensures
        final(limiter).wf(),
        final(limiter)@ == match outcome {
            Ok(_) => old(limiter)@.remove(ip_key(ip@)).remove(email_key(email@)),
            Err(LoginFailure::Rejected { .. }) => failed(
                failed(old(limiter)@, ip_key(ip@), now),
                email_key(email@),
                now,
            ),
            Err(LoginFailure::Unavailable(_)) => old(limiter)@,
        },
{
    match outcome {
        Ok(_) => {
            limiter.record_success(ip, email);
        },
        Err(LoginFailure::Rejected { .. }) => {
            limiter.record_failure(ip, email, now);
        },
        Err(LoginFailure::Unavailable(_)) => {},
    }
}

// ---------------------------------------------------------------------------------------
// What holds of every login
// ---------------------------------------------------------------------------------------

/// A wrong password lets nobody in.
pub proof fn lemma_wrong_passwords_let_nobody_in(
    given: Seq<char>,
    admin: Seq<char>,
    viewer: Option<Seq<char>>,
)
    ensures
        local_role(given, admin, false, viewer, false) is None,
{
}

/// Who is an admin is the login server's decision alone: no other answer makes one.
pub proof fn lemma_only_the_login_server_makes_admins(
    status: u16,
    fields: (Option<Seq<char>>, Option<bool>, Option<Seq<char>>),
    allow_viewers: bool,
    r: Result<Admission, LoginFailure>,
)
    requires
        upstream_decides(status, fields, allow_viewers, r),
        r is Ok,
    ensures
        200 <= status < 300,
        (r->Ok_0.role == Role::Admin) == (fields.1 == Some(true)),
        r->Ok_0.role == Role::Viewer ==> allow_viewers,
{
}

/// A throttled client is never told to wait less than it has to.
pub proof fn lemma_waits_are_rounded_up(wait: u64)
    ensures
        wait_minutes(wait) >= 1,
        wait_minutes(wait) * 60 >= wait / 1000,
{
}

} // verus!

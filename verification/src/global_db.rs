//! Users and cohorts shared by every cohort database: how a user's stored
//! record follows what each sign-in reports, who is an admin, and how
//! member emails are compared.
use vstd::prelude::*;

use crate::random::random_alphanumeric;
use crate::text::{char_string, opt_view, str_eq, to_lowercase, trim, trimmed, unicode_lowercase};

verus! {

/// A user known across cohorts.
#[derive(Debug)]
pub struct GlobalUser {
    pub id: i64,
    pub kinde_id: String,
    pub display_name: String,
    /// Effective admin status: the identity provider's admin role or a grant
    /// from the Admin page.
    pub is_admin: bool,
    /// Whether the user's latest sign-in carried the provider's admin role.
    pub is_kinde_admin: bool,
    /// Whether an admin granted the user admin status on the Admin page.
    pub admin_grant: bool,
    pub email: Option<String>,
}

/// A cohort: one trading database and who may use it.
#[derive(Debug)]
pub struct CohortInfo {
    pub id: i64,
    pub name: String,
    pub display_name: String,
    pub db_path: String,
    pub is_read_only: bool,
}

/// What setting a user's Admin-page grant did.
#[derive(Clone, Copy, Debug, PartialEq, Eq, Structural)]
pub enum SetUserAdminResult {
    /// The grant was written.
    Applied,
    UserNotFound,
    /// The user still has the provider's admin role, so revoking the grant
    /// cannot take their admin status away.
    BlockedByKindeRole,
}

/// A member of a cohort, linked to a user or still only an email.
#[derive(Debug)]
pub struct CohortMember {
    pub id: i64,
    pub cohort_id: i64,
    pub global_user_id: Option<i64>,
    pub email: Option<String>,
    pub display_name: Option<String>,
    pub initial_balance: Option<String>,
}

impl GlobalUser {
    /// The effective admin status agrees with its two sources.
    pub open spec fn wf(&self) -> bool {
        self.is_admin == (self.is_kinde_admin || self.admin_grant)
    }
}

/// A newly created user: no Admin-page grant, admin exactly when the
/// provider says so.
pub fn new_global_user(id: i64, kinde_id: &str, name: &str, email: Option<&str>, is_kinde_admin: bool) -> (r:
    GlobalUser)
    ensures
        r.wf(),
        r.id == id,
        r.kinde_id@ == kinde_id@,
        r.display_name@ == name@,
        r.is_kinde_admin == is_kinde_admin,
        !r.admin_grant,
        opt_view(r.email) == match email {
            Some(e) => Some(e@),
            None => None,
        },
{
    let email = match email {
        Some(e) => Some(String::from_str(e)),
        None => None,
    };
    GlobalUser {
        id,
        kinde_id: String::from_str(kinde_id),
        display_name: String::from_str(name),
        is_admin: is_kinde_admin,
        is_kinde_admin,
        admin_grant: false,
        email,
    }
}

/// A stored user after a sign-in that reported `email` (if any) and the
/// provider's admin role: the email is replaced when one was reported and it
/// differs, the provider's role always follows the sign-in.  The flag says
/// whether anything changed and must be written back; the display name and
/// the Admin-page grant are never touched.
pub fn sync_signed_in_user(user: GlobalUser, email: Option<&str>, is_kinde_admin: bool) -> (r: (
    GlobalUser,
    bool,
))
    requires
        user.wf(),
    ensures
        r.0.wf(),
        r.0.id == user.id,
        r.0.kinde_id@ == user.kinde_id@,
        r.0.display_name@ == user.display_name@,
        r.0.admin_grant == user.admin_grant,
        r.0.is_kinde_admin == is_kinde_admin,
        opt_view(r.0.email) == match email {
            Some(e) => Some(e@),
            None => opt_view(user.email),
        },
        r.1 == ((email is Some && opt_view(user.email) != Some(email->Some_0@)) || user.is_kinde_admin
            != is_kinde_admin),
{
    let email_changed = match (email, &user.email) {
        (Some(e), Some(current)) => !str_eq(current.as_str(), e),
        (Some(_), None) => true,
        (None, _) => false,
    };
    let admin_changed = user.is_kinde_admin != is_kinde_admin;
    let mut user = user;
    if email_changed {
        user.email = match email {
            Some(e) => Some(String::from_str(e)),
            None => None,
        };
    }
    if admin_changed {
        user.is_kinde_admin = is_kinde_admin;
        user.is_admin = is_kinde_admin || user.admin_grant;
    }
    (user, email_changed || admin_changed)
}

/// A stored user after a request that reported the provider's admin role:
/// only that role follows the request.  The flag says whether it changed
/// and must be written back.
pub fn sync_kinde_admin(user: GlobalUser, is_kinde_admin: bool) -> (r: (GlobalUser, bool))
    requires
        user.wf(),
    ensures
        r.0.wf(),
        r.0.id == user.id,
        r.0.kinde_id@ == user.kinde_id@,
        r.0.display_name@ == user.display_name@,
        r.0.admin_grant == user.admin_grant,
        opt_view(r.0.email) == opt_view(user.email),
        r.0.is_kinde_admin == is_kinde_admin,
        r.1 == (user.is_kinde_admin != is_kinde_admin),
{
    let changed = user.is_kinde_admin != is_kinde_admin;
    let mut user = user;
    if changed {
        user.is_kinde_admin = is_kinde_admin;
        user.is_admin = is_kinde_admin || user.admin_grant;
    }
    (user, changed)
}

/// What setting a user's Admin-page grant to `admin_grant` does, given the
/// user's provider admin role (`None` when there is no such user; only
/// consulted for a revoke): a grant always goes through; a revoke is refused
/// for an unknown user and for one the provider still makes an admin.
pub open spec fn spec_set_user_admin(admin_grant: bool, is_kinde_admin: Option<bool>) -> SetUserAdminResult {
    if admin_grant {
        SetUserAdminResult::Applied
    } else {
        match is_kinde_admin {
            None => SetUserAdminResult::UserNotFound,
            Some(true) => SetUserAdminResult::BlockedByKindeRole,
            Some(false) => SetUserAdminResult::Applied,
        }
    }
}

/// Decide a change of a user's Admin-page grant; `Applied` means the grant is
/// to be written.
pub fn decide_set_user_admin(admin_grant: bool, is_kinde_admin: Option<bool>) -> (r: SetUserAdminResult)
    ensures
        r == spec_set_user_admin(admin_grant, is_kinde_admin),
{
    if !admin_grant {
        match is_kinde_admin {
            None => return SetUserAdminResult::UserNotFound,
            Some(true) => return SetUserAdminResult::BlockedByKindeRole,
            Some(false) => {},
        }
    }
    SetUserAdminResult::Applied
}

/// A revoke on the Admin page never takes effect while the provider's admin
/// role keeps the user an admin, so a granted admin status that the
/// provider also grants survives every Admin-page change.
pub proof fn lemma_revoke_blocked_by_provider_role(is_kinde_admin: bool)
    ensures
        is_kinde_admin ==> spec_set_user_admin(false, Some(is_kinde_admin))
            == SetUserAdminResult::BlockedByKindeRole,
        !is_kinde_admin ==> spec_set_user_admin(false, Some(is_kinde_admin)) == SetUserAdminResult::Applied,
{
}

/// An email as members are stored and matched: trimmed and lowercased.
pub fn normalize_email(email: &str) -> (r: String)
    ensures
        r@ == unicode_lowercase(trimmed(email@)),
{
    let t = trim(email);
    to_lowercase(t.as_str())
}

/// Whether `s` is a placeholder display name: `Unnamed-` and four ASCII
/// letters or digits.
pub open spec fn is_placeholder_name(s: Seq<char>) -> bool {
    &&& s.len() == 12
    &&& s.subrange(0, 8) == "Unnamed-"@
    &&& forall|i: int|
        8 <= i < 12 ==> ('A' <= #[trigger] s[i] <= 'Z') || ('a' <= s[i] <= 'z') || ('0' <= s[i]
            <= '9')
}

/// A display name for a user whose real name is not known yet: `Unnamed-`
/// and four random letters or digits, so that two such users can be told
/// apart while neither their id nor their email is shown.
pub fn generate_unnamed_placeholder() -> (r: String)
    ensures
        is_placeholder_name(r@),
{
    let mut s = String::from_str("Unnamed-");
    proof {
        reveal_strlit("Unnamed-");
    }
    let mut k: usize = 0;
    while k < 4
        invariant
            k <= 4,
            s@.len() == 8 + k,
            s@.subrange(0, 8) == "Unnamed-"@,
            forall|i: int|
                8 <= i < 8 + k ==> ('A' <= #[trigger] s@[i] <= 'Z') || ('a' <= s@[i] <= 'z') || (
                '0' <= s@[i] <= '9'),
        decreases 4 - k,
    {
        let c = random_alphanumeric();
        let piece = char_string(c);
        let ghost before = s@;
        s.append(piece.as_str());
        proof {
            assert(s@.subrange(0, 8) =~= before.subrange(0, 8));
            assert(s@[8 + k as int] == c);
            assert forall|i: int| 8 <= i < 8 + k implies s@[i] == before[i] by {}
        }
        k = k + 1;
    }
    s
}

} // verus!

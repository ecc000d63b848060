//! Who is connecting: the claims an access token carries, the admin
//! allowlist for machine-to-machine clients, display names from ID tokens,
//! and the development test tokens.
use vstd::prelude::*;

use crate::text::{
    eq_ignore_ascii_case, eq_ignore_ascii_case_spec, has_prefix, opt_view, parse_bool,
    parse_bool_spec, split, split_seq, starts_with, str_eq, trim, trimmed, views,
};

verus! {

/// A role granted by the identity provider.
#[derive(Clone, Copy, Debug, PartialEq, Eq, Structural)]
pub enum Role {
    Admin,
    Trader,
}

/// The claims of a validated access token.  `sub` is the caller's identity:
/// the user's id for user tokens, the client id for machine-to-machine
/// tokens (which carry `azp` instead of `sub`).
#[derive(Debug)]
pub struct AccessClaims {
    pub sub: String,
    pub roles: Vec<Role>,
    /// Email from the token (set in development test tokens only).
    pub email: Option<String>,
}

/// The claims of an ID token that name the user.
#[derive(Debug)]
pub struct IdClaims {
    pub name: Option<String>,
    pub given_name: Option<String>,
    pub family_name: Option<String>,
    pub sub: String,
    pub email: Option<String>,
}

/// A connection whose tokens were accepted.
pub struct ValidatedClient {
    pub id: String,
    pub roles: Vec<Role>,
    pub name: Option<String>,
    pub email: Option<String>,
    /// `Some(false)` keeps a development connection from joining the cohort
    /// as a member; `None` expresses no preference.
    pub auto_join_cohort: Option<bool>,
}

/// The name and email an ID token gives.
pub struct IdTokenInfo {
    pub name: Option<String>,
    pub email: Option<String>,
}

/// Why tokens were refused.
#[derive(Clone, Copy, Debug, PartialEq, Eq, Structural)]
pub enum AuthError {
    /// A test token does not start with `test::`.
    NotTestToken,
    /// A test token has fewer than four `::`-separated parts.
    TooFewTestTokenParts,
    /// The ID token belongs to another subject than the access token.
    SubMismatch,
}

/// The text reported for each refusal.
pub open spec fn spec_auth_error_message(e: AuthError) -> Seq<char> {
    match e {
        AuthError::NotTestToken => "Invalid test token format"@,
        AuthError::TooFewTestTokenParts => "Invalid test token format: expected test::<kinde_id>::<name>::<is_admin>[::<email>[::<join_cohort>]]"@,
        AuthError::SubMismatch => "sub mismatch"@,
    }
}

impl AuthError {
    /// The text reported for the error.
    pub fn message(&self) -> (r: &'static str)
        ensures
            r@ == spec_auth_error_message(*self),
    {
        match self {
            AuthError::NotTestToken => "Invalid test token format",
            AuthError::TooFewTestTokenParts => "Invalid test token format: expected test::<kinde_id>::<name>::<is_admin>[::<email>[::<join_cohort>]]",
            AuthError::SubMismatch => "sub mismatch",
        }
    }
}

/// The subject of an access token: `sub` when present and not empty, else
/// `azp`.
pub open spec fn spec_subject(sub: Option<Seq<char>>, azp: Option<Seq<char>>) -> Option<Seq<char>> {
    match sub {
        Some(s) => if s.len() > 0 {
            Some(s)
        } else {
            azp
        },
        None => azp,
    }
}

/// A string with its surrounding whitespace removed, unless nothing is left.
pub open spec fn trimmed_nonempty(o: Option<Seq<char>>) -> Option<Seq<char>> {
    match o {
        Some(s) => if trimmed(s).len() > 0 {
            Some(trimmed(s))
        } else {
            None
        },
        None => None,
    }
}

/// The display name ID-token claims give: `name`, else `given_name` and
/// `family_name` joined by a space, each trimmed and used only when not
/// empty.
pub open spec fn spec_resolve_name(
    name: Option<Seq<char>>,
    given: Option<Seq<char>>,
    family: Option<Seq<char>>,
) -> Option<Seq<char>> {
    match trimmed_nonempty(name) {
        Some(n) => Some(n),
        None => match (trimmed_nonempty(given), trimmed_nonempty(family)) {
            (Some(g), Some(f)) => Some(g + seq![' '] + f),
            (Some(g), None) => Some(g),
            (None, Some(f)) => Some(f),
            (None, None) => None,
        },
    }
}

impl AccessClaims {
    /// Claims from the fields of a decoded token: the subject is `sub` when
    /// present and not empty, else `azp`; `None` when neither gives one.
    pub fn from_token_fields(
        sub: Option<String>,
        azp: Option<String>,
        roles: Vec<Role>,
        email: Option<String>,
    ) -> (r: Option<AccessClaims>)
        ensures
            r is None <==> spec_subject(opt_view(sub), opt_view(azp)) is None,
            r matches Some(c) ==> {
                &&& Some(c.sub@) == spec_subject(opt_view(sub), opt_view(azp))
                &&& c.roles@ == roles@
                &&& opt_view(c.email) == opt_view(email)
            },
    {
        let subject = match sub {
            Some(s) => if s.unicode_len() > 0 {
                Some(s)
            } else {
                azp
            },
            None => azp,
        };
        match subject {
            Some(s) => Some(AccessClaims { sub: s, roles, email }),
            None => None,
        }
    }
}

/// `s` trimmed, unless nothing is left.
fn trimmed_if_nonempty(o: &Option<String>) -> (r: Option<String>)
    ensures
        opt_view(r) == trimmed_nonempty(opt_view(*o)),
{
    match o {
        Some(s) => {
            let t = trim(s.as_str());
            if t.unicode_len() > 0 {
                Some(t)
            } else {
                None
            }
        },
        None => None,
    }
}

impl IdClaims {
    /// Best-effort display name: `name`, else `given_name` and
    /// `family_name` joined by a space, ignoring empty values; `None` when
    /// none of these yields a non-empty string.
    pub fn resolve_name(&self) -> (r: Option<String>)
        ensures
            opt_view(r) == spec_resolve_name(
                opt_view(self.name),
                opt_view(self.given_name),
                opt_view(self.family_name),
            ),
    {
        if let Some(n) = trimmed_if_nonempty(&self.name) {
            return Some(n);
        }
        let given = trimmed_if_nonempty(&self.given_name);
        let family = trimmed_if_nonempty(&self.family_name);
        match (given, family) {
            (Some(g), Some(f)) => {
                let joined = g.concat(" ").concat(f.as_str());
                proof {
                    reveal_strlit(" ");
                    assert(joined@ =~= g@ + seq![' '] + f@);
                }
                Some(joined)
            },
            (Some(g), None) => Some(g),
            (None, Some(f)) => Some(f),
            (None, None) => None,
        }
    }
}

/// `sub` is one of the allowlisted client ids.
pub open spec fn listed(allowlist: Seq<Seq<char>>, sub: Seq<char>) -> bool {
    exists|i: int| 0 <= i < allowlist.len() && #[trigger] allowlist[i] == sub
}

/// The roles after the allowlist is applied: an allowlisted subject without
/// the admin role gains it; anything else is left as it is.
pub open spec fn allowlisted_roles(roles: Seq<Role>, allowlist: Seq<Seq<char>>, sub: Seq<char>) -> Seq<
    Role,
> {
    if listed(allowlist, sub) && !roles.contains(Role::Admin) {
        roles.push(Role::Admin)
    } else {
        roles
    }
}

/// How often the admin role appears.
pub open spec fn admin_count(roles: Seq<Role>) -> nat
    decreases roles.len(),
{
    if roles.len() == 0 {
        0
    } else {
        admin_count(roles.drop_last()) + if roles.last() == Role::Admin {
            1nat
        } else {
            0nat
        }
    }
}

/// Machine-to-machine tokens carry no roles, so admin service clients are
/// recognised by their client id (`sub`): an allowlisted subject gets the
/// admin role unless it already has it.
pub fn apply_admin_m2m_allowlist_with(claims: AccessClaims, allowlist: &[String]) -> (r: AccessClaims)
    ensures
        r.sub@ == claims.sub@,
        opt_view(r.email) == opt_view(claims.email),
        r.roles@ == allowlisted_roles(claims.roles@, views(allowlist@), claims.sub@),
{
    let mut found = false;
    let mut i: usize = 0;
    while i < allowlist.len()
        invariant
            i <= allowlist@.len(),
            found <==> exists|k: int| 0 <= k < i && #[trigger] views(allowlist@)[k] == claims.sub@,
        decreases allowlist@.len() - i,
    {
        if str_eq(allowlist[i].as_str(), claims.sub.as_str()) {
            found = true;
        }
        proof {
            assert(views(allowlist@)[i as int] == allowlist@[i as int]@);
        }
        i = i + 1;
    }
    let mut has_admin = false;
    let mut j: usize = 0;
    while j < claims.roles.len()
        invariant
            j <= claims.roles@.len(),
            has_admin <==> exists|k: int| 0 <= k < j && claims.roles@[k] == Role::Admin,
        decreases claims.roles@.len() - j,
    {
        if claims.roles[j] == Role::Admin {
            has_admin = true;
        }
        j = j + 1;
    }
    let mut claims = claims;
    if found && !has_admin {
        claims.roles.push(Role::Admin);
    }
    claims
}

/// The non-empty trimmed pieces of a comma-separated list, in order.
pub open spec fn trimmed_pieces(ps: Seq<Seq<char>>) -> Seq<Seq<char>>
    decreases ps.len(),
{
    if ps.len() == 0 {
        Seq::empty()
    } else {
        let rest = trimmed_pieces(ps.drop_last());
        if trimmed(ps.last()).len() > 0 {
            rest.push(trimmed(ps.last()))
        } else {
            rest
        }
    }
}

/// The client ids of a comma-separated allowlist setting: each trimmed,
/// empty ones dropped.
pub fn parse_client_ids(raw: &str) -> (r: Vec<String>)
    ensures
        views(r@) == trimmed_pieces(split_seq(raw@, ","@)),
{
    proof {
        reveal_strlit(",");
    }
    let pieces = split(raw, ",");
    let mut ids: Vec<String> = Vec::new();
    let mut i: usize = 0;
    while i < pieces.len()
        invariant
            i <= pieces@.len(),
            views(ids@) == trimmed_pieces(views(pieces@).take(i as int)),
        decreases pieces@.len() - i,
    {
        proof {
            assert(views(pieces@).take(i + 1).drop_last() =~= views(pieces@).take(i as int));
            assert(views(pieces@).take(i + 1).last() == pieces@[i as int]@);
        }
        let t = trim(pieces[i].as_str());
        if t.unicode_len() > 0 {
            let ghost before = ids@;
            ids.push(t);
            proof {
                assert(views(ids@) =~= views(before).push(t@));
            }
        }
        i = i + 1;
    }
    proof {
        assert(views(pieces@).take(pieces@.len() as int) =~= views(pieces@));
    }
    ids
}

/// Apply the admin allowlist configured by a comma-separated setting
/// (none when the setting is absent).
pub fn apply_admin_m2m_allowlist(claims: AccessClaims, configured: Option<&str>) -> (r: AccessClaims)
    ensures
        r.sub@ == claims.sub@,
        opt_view(r.email) == opt_view(claims.email),
        r.roles@ == allowlisted_roles(
            claims.roles@,
            match configured {
                Some(raw) => trimmed_pieces(split_seq(raw@, ","@)),
                None => Seq::empty(),
            },
            claims.sub@,
        ),
{
    let ids: Vec<String> = match configured {
        Some(raw) => parse_client_ids(raw),
        None => Vec::new(),
    };
    proof {
        if configured is None {
            assert(views(ids@) =~= Seq::<Seq<char>>::empty());
        }
    }
    apply_admin_m2m_allowlist_with(claims, ids.as_slice())
}

/// An allowlisted subject always ends up with the admin role.
pub proof fn lemma_allowlist_grants_admin(roles: Seq<Role>, allowlist: Seq<Seq<char>>, sub: Seq<char>)
    requires
        listed(allowlist, sub),
    ensures
        allowlisted_roles(roles, allowlist, sub).contains(Role::Admin),
{
    let r = allowlisted_roles(roles, allowlist, sub);
    if !roles.contains(Role::Admin) {
        assert(r[roles.len() as int] == Role::Admin);
    }
}

/// A subject that is not allowlisted keeps exactly the roles it had; an
/// empty allowlist grants nothing.
pub proof fn lemma_allowlist_leaves_unlisted(roles: Seq<Role>, allowlist: Seq<Seq<char>>, sub: Seq<char>)
    requires
        !listed(allowlist, sub),
    ensures
        allowlisted_roles(roles, allowlist, sub) == roles,
{
}

proof fn lemma_admin_count_contains(roles: Seq<Role>)
    ensures
        admin_count(roles) == 0 <==> !roles.contains(Role::Admin),
    decreases roles.len(),
{
    if roles.len() > 0 {
        let t = roles.drop_last();
        lemma_admin_count_contains(t);
        if t.contains(Role::Admin) {
            let k = choose|k: int| 0 <= k < t.len() && t[k] == Role::Admin;
            assert(roles[k] == Role::Admin);
        }
        if roles.contains(Role::Admin) && roles.last() != Role::Admin {
            let k = choose|k: int| 0 <= k < roles.len() && roles[k] == Role::Admin;
            assert(k != roles.len() - 1);
            assert(t[k] == Role::Admin);
        }
        if roles.last() == Role::Admin {
            assert(roles[roles.len() - 1] == Role::Admin);
        }
    }
}

/// Applying the allowlist never duplicates the admin role: the roles after
/// it hold as many admin roles as before, or exactly one when it granted
/// the role.  Applying it a second time changes nothing.
pub proof fn lemma_allowlist_no_duplicate_admin(roles: Seq<Role>, allowlist: Seq<Seq<char>>, sub: Seq<char>)
    ensures
        admin_count(allowlisted_roles(roles, allowlist, sub)) == if listed(allowlist, sub)
            && admin_count(roles) == 0 {
            1
        } else {
            admin_count(roles)
        },
        allowlisted_roles(allowlisted_roles(roles, allowlist, sub), allowlist, sub)
            == allowlisted_roles(roles, allowlist, sub),
{
    lemma_admin_count_contains(roles);
    let r = allowlisted_roles(roles, allowlist, sub);
    if listed(allowlist, sub) && !roles.contains(Role::Admin) {
        assert(r.drop_last() =~= roles);
        lemma_allowlist_grants_admin(roles, allowlist, sub);
    }
    lemma_admin_count_contains(r);
    if listed(allowlist, sub) {
        lemma_allowlist_grants_admin(roles, allowlist, sub);
    }
}

/// The client a development test token describes.  Tokens read
/// `test::<id>::<name>::<is_admin>[::<email>[::<join_cohort>]]`.
pub open spec fn test_token_parts(token: Seq<char>) -> Seq<Seq<char>> {
    split_seq(token, "::"@)
}

/// Whether the test token is accepted: it starts with `test::` and has at
/// least four parts.
pub open spec fn spec_test_token_error(token: Seq<char>) -> Option<AuthError> {
    if !has_prefix(token, "test::"@) {
        Some(AuthError::NotTestToken)
    } else if test_token_parts(token).len() < 4 {
        Some(AuthError::TooFewTestTokenParts)
    } else {
        None
    }
}

/// The fields of the client an accepted test token describes.
pub open spec fn test_client_matches(token: Seq<char>, c: ValidatedClient) -> bool {
    let p = test_token_parts(token);
    &&& c.id@ == p[1]
    &&& opt_view(c.name) == Some(p[2])
    &&& c.roles@ == (if parse_bool_spec(p[3]) == Some(true) {
        seq![Role::Admin]
    } else {
        Seq::<Role>::empty()
    })
    &&& opt_view(c.email) == (if p.len() > 4 && p[4].len() > 0 {
        Some(p[4])
    } else {
        None
    })
    &&& c.auto_join_cohort == (if p.len() > 5 {
        parse_bool_spec(p[5])
    } else {
        None
    })
}

/// Read a development test token
/// (`test::<id>::<name>::<is_admin>[::<email>[::<join_cohort>]]`): the
/// admin flag and the cohort flag are read as booleans (an unreadable admin
/// flag means not admin, an unreadable cohort flag means no preference), an
/// empty email means none.
pub fn validate_test_token(token: &str) -> (r: Result<ValidatedClient, AuthError>)
    ensures
        r is Err <==> spec_test_token_error(token@) is Some,
        r matches Err(e) ==> spec_test_token_error(token@) == Some(e),
        r matches Ok(c) ==> test_client_matches(token@, c),
{
    if !starts_with(token, "test::") {
        return Err(AuthError::NotTestToken);
    }
    proof {
        reveal_strlit("::");
    }
    let parts = split(token, "::");
    if parts.len() < 4 {
        return Err(AuthError::TooFewTestTokenParts);
    }
    proof {
        assert(views(parts@)[1] == parts@[1]@);
        assert(views(parts@)[2] == parts@[2]@);
        assert(views(parts@)[3] == parts@[3]@);
    }
    let id = parts[1].clone();
    let name = parts[2].clone();
    let is_admin = match parse_bool(parts[3].as_str()) {
        Some(b) => b,
        None => false,
    };
    let email: Option<String> = if parts.len() > 4 {
        proof {
            assert(views(parts@)[4] == parts@[4]@);
        }
        if parts[4].unicode_len() > 0 {
            Some(parts[4].clone())
        } else {
            None
        }
    } else {
        None
    };
    let auto_join_cohort: Option<bool> = if parts.len() > 5 {
        proof {
            assert(views(parts@)[5] == parts@[5]@);
        }
        parse_bool(parts[5].as_str())
    } else {
        None
    };
    let mut roles: Vec<Role> = Vec::new();
    if is_admin {
        roles.push(Role::Admin);
    }
    proof {
        if is_admin {
            assert(roles@ =~= seq![Role::Admin]);
        } else {
            assert(roles@ =~= Seq::<Role>::empty());
        }
    }
    Ok(ValidatedClient { id, roles, name: Some(name), email, auto_join_cohort })
}

/// The claims a development test token presented to the REST endpoints
/// gives: after `test::`, at least three `::`-separated parts
/// `<id>::<name>::<is_admin>[::<email>]`; the admin flag is `true` in any
/// letter case; every such caller is a trader.
pub open spec fn spec_rest_test_claims(token: Seq<char>) -> Option<(Seq<char>, Seq<Role>, Option<Seq<char>>)> {
    if !has_prefix(token, "test::"@) {
        None
    } else {
        let p = split_seq(token.subrange(6, token.len() as int), "::"@);
        if p.len() < 3 {
            None
        } else {
            Some(
                (
                    p[0],
                    if eq_ignore_ascii_case_spec(p[2], "true"@) {
                        seq![Role::Trader, Role::Admin]
                    } else {
                        seq![Role::Trader]
                    },
                    if p.len() > 3 && p[3].len() > 0 {
                        Some(p[3])
                    } else {
                        None
                    },
                ),
            )
        }
    }
}

impl AccessClaims {
    /// The claims a development test token gives the REST endpoints, if it
    /// is one.
    pub fn from_test_token(token: &str) -> (r: Option<AccessClaims>)
        ensures
            r is None <==> spec_rest_test_claims(token@) is None,
            r matches Some(c) ==> spec_rest_test_claims(token@) == Some(
                (c.sub@, c.roles@, opt_view(c.email)),
            ),
    {
        proof {
            reveal_strlit("test::");
            reveal_strlit("::");
        }
        if !starts_with(token, "test::") {
            return None;
        }
        let rest = token.substring_char(6, token.unicode_len());
        let parts = split(rest, "::");
        if parts.len() < 3 {
            return None;
        }
        proof {
            assert(views(parts@)[0] == parts@[0]@);
            assert(views(parts@)[2] == parts@[2]@);
        }
        let sub = parts[0].clone();
        let is_admin = eq_ignore_ascii_case(parts[2].as_str(), "true");
        let email: Option<String> = if parts.len() > 3 {
            proof {
                assert(views(parts@)[3] == parts@[3]@);
            }
            if parts[3].unicode_len() > 0 {
                Some(parts[3].clone())
            } else {
                None
            }
        } else {
            None
        };
        let mut roles: Vec<Role> = Vec::new();
        roles.push(Role::Trader);
        if is_admin {
            roles.push(Role::Admin);
        }
        proof {
            if is_admin {
                assert(roles@ =~= seq![Role::Trader, Role::Admin]);
            } else {
                assert(roles@ =~= seq![Role::Trader]);
            }
        }
        Some(AccessClaims { sub, roles, email })
    }
}

/// The client validated access and ID claims describe: refused when the ID
/// token's subject differs from the access token's; otherwise the access
/// token's subject and roles, with the ID token's email and display name.
pub fn client_from_claims(access: AccessClaims, id: Option<IdClaims>) -> (r: Result<ValidatedClient, AuthError>)
    ensures
        r is Err <==> (id matches Some(c) && c.sub@ != access.sub@),
        r matches Err(e) ==> e == AuthError::SubMismatch,
        r matches Ok(c) ==> {
            &&& c.id@ == access.sub@
            &&& c.roles@ == access.roles@
            &&& opt_view(c.email) == match id {
                Some(i) => opt_view(i.email),
                None => None,
            }
            &&& opt_view(c.name) == match id {
                Some(i) => spec_resolve_name(opt_view(i.name), opt_view(i.given_name), opt_view(i.family_name)),
                None => None,
            }
            &&& c.auto_join_cohort is None
        },
{
    match id {
        Some(claims) => {
            if !str_eq(claims.sub.as_str(), access.sub.as_str()) {
                return Err(AuthError::SubMismatch);
            }
            let name = claims.resolve_name();
            Ok(ValidatedClient {
                id: access.sub,
                roles: access.roles,
                name,
                email: claims.email,
                auto_join_cohort: None,
            })
        },
        None => Ok(ValidatedClient {
            id: access.sub,
            roles: access.roles,
            name: None,
            email: None,
            auto_join_cohort: None,
        }),
    }
}

/// The name and email an ID token gives, refused when it belongs to another
/// subject than `expected_sub`.
pub fn id_token_info(claims: IdClaims, expected_sub: &str) -> (r: Result<IdTokenInfo, AuthError>)
    ensures
        r is Err <==> claims.sub@ != expected_sub@,
        r matches Err(e) ==> e == AuthError::SubMismatch,
        r matches Ok(info) ==> opt_view(info.name) == spec_resolve_name(
            opt_view(claims.name),
            opt_view(claims.given_name),
            opt_view(claims.family_name),
        ) && opt_view(info.email) == opt_view(claims.email),
{
    if !str_eq(claims.sub.as_str(), expected_sub) {
        return Err(AuthError::SubMismatch);
    }
    let name = claims.resolve_name();
    Ok(IdTokenInfo { name, email: claims.email })
}

/// The name and email a development test ID token gives, refused when it
/// is malformed or belongs to another subject than `expected_sub`.
pub fn test_id_token_info(token: &str, expected_sub: &str) -> (r: Result<IdTokenInfo, AuthError>)
    ensures
        spec_test_token_error(token@) matches Some(e) ==> r == Err::<IdTokenInfo, AuthError>(e),
        spec_test_token_error(token@) is None ==> {
            let p = test_token_parts(token@);
            &&& (r is Err <==> p[1] != expected_sub@)
            &&& (r matches Err(e) ==> e == AuthError::SubMismatch)
            &&& (r matches Ok(info) ==> opt_view(info.name) == Some(p[2]) && opt_view(info.email) == (
            if p.len() > 4 && p[4].len() > 0 {
                Some(p[4])
            } else {
                None
            }))
        },
{
    let client = match validate_test_token(token) {
        Ok(c) => c,
        Err(e) => return Err(e),
    };
    if !str_eq(client.id.as_str(), expected_sub) {
        return Err(AuthError::SubMismatch);
    }
    Ok(IdTokenInfo { name: client.name, email: client.email })
}

} // verus!

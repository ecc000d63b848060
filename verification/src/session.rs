//! The decisions of a websocket session: who the client acts as, when sudo
//! and admin powers apply, which markets and account ids a client may see,
//! and how the set of owned accounts follows ownership changes.
use vstd::prelude::*;

use crate::auth::Role;
use crate::text::str_eq;

verus! {

/// `s` holds `x`.
pub open spec fn holds(s: Seq<i64>, x: i64) -> bool {
    exists|i: int| 0 <= i < s.len() && s[i] == x
}

/// Whether `s` holds `x`.
pub fn contains_id(s: &[i64], x: i64) -> (r: bool)
    ensures
        r == holds(s@, x),
{
    let mut i: usize = 0;
    while i < s.len()
        invariant
            i <= s@.len(),
            forall|k: int| 0 <= k < i ==> s@[k] != x,
        decreases s@.len() - i,
    {
        if s[i] == x {
            return true;
        }
        i = i + 1;
    }
    false
}

/// Hide an account id from a client that does not own the account: it
/// becomes 0.
pub fn hide_id(owned_accounts: &[i64], id: &mut i64)
    ensures
        *final(id) == if holds(owned_accounts@, *old(id)) {
            *old(id)
        } else {
            0
        },
{
    if !contains_id(owned_accounts, *id) {
        *id = 0;
    }
}

/// Hide every account id of a list the client does not own.
pub fn hide_ids(owned_accounts: &[i64], ids: &mut Vec<i64>)
    ensures
        final(ids)@.len() == old(ids)@.len(),
        forall|i: int|
            0 <= i < old(ids)@.len() ==> #[trigger] final(ids)@[i] == if holds(
                owned_accounts@,
                old(ids)@[i],
            ) {
                old(ids)@[i]
            } else {
                0
            },
{
    let ghost before = ids@;
    let mut i: usize = 0;
    while i < ids.len()
        invariant
            i <= ids@.len(),
            ids@.len() == before.len(),
            forall|k: int| i <= k < ids@.len() ==> ids@[k] == before[k],
            forall|k: int|
                0 <= k < i ==> #[trigger] ids@[k] == if holds(owned_accounts@, before[k]) {
                    before[k]
                } else {
                    0
                },
        decreases ids@.len() - i,
    {
        let mut id = ids[i];
        hide_id(owned_accounts, &mut id);
        ids.set(i, id);
        i = i + 1;
    }
}

/// Hiding never reveals: an id hidden once stays the same when hidden
/// again, and an id the client owns is never hidden.
pub proof fn lemma_hide_idempotent(owned: Seq<i64>, id: i64)
    ensures
        ({
            let once = if holds(owned, id) {
                id
            } else {
                0
            };
            let twice = if holds(owned, once) {
                once
            } else {
                0
            };
            twice == once
        }),
{
}

/// A market is visible to a set of accounts when it is not restricted or
/// one of them is on its list.
pub open spec fn visible_to_any(visible_to: Seq<i64>, accounts: Seq<i64>) -> bool {
    visible_to.len() == 0 || exists|i: int| 0 <= i < accounts.len() && holds(visible_to, #[trigger] accounts[i])
}

/// Whether a market with the visibility list `visible_to` is visible to
/// any of `accounts`.
pub fn market_visible_to_any(visible_to: &[i64], accounts: &[i64]) -> (r: bool)
    ensures
        r == visible_to_any(visible_to@, accounts@),
{
    if visible_to.len() == 0 {
        return true;
    }
    let mut i: usize = 0;
    while i < accounts.len()
        invariant
            i <= accounts@.len(),
            visible_to@.len() > 0,
            forall|k: int| 0 <= k < i ==> !holds(visible_to@, #[trigger] accounts@[k]),
        decreases accounts@.len() - i,
    {
        if contains_id(visible_to, accounts[i]) {
            return true;
        }
        i = i + 1;
    }
    false
}

/// Whether a market is sent to a client: always to an admin seeing hidden
/// data, otherwise only when visible to one of the client's accounts.
pub fn market_shown(show_hidden: bool, visible_to: &[i64], owned_accounts: &[i64]) -> (r: bool)
    ensures
        r == (show_hidden || visible_to_any(visible_to@, owned_accounts@)),
{
    show_hidden || market_visible_to_any(visible_to, owned_accounts)
}

/// The admin id requests act with: the admin's own id while sudo is on,
/// none otherwise.
pub fn effective_admin_id(sudo_enabled: bool, admin_id: Option<i64>) -> (r: Option<i64>)
    ensures
        r == (if sudo_enabled {
            admin_id
        } else {
            None
        }),
{
    if sudo_enabled {
        admin_id
    } else {
        None
    }
}

/// Whether a client with these roles is an admin.
pub fn is_admin_role(roles: &Vec<Role>) -> (r: bool)
    ensures
        r == roles@.contains(Role::Admin),
{
    let mut i: usize = 0;
    while i < roles.len()
        invariant
            i <= roles@.len(),
            forall|k: int| 0 <= k < i ==> roles@[k] != Role::Admin,
        decreases roles@.len() - i,
    {
        if roles[i] == Role::Admin {
            proof {
                assert(roles@[i as int] == Role::Admin);
            }
            return true;
        }
        i = i + 1;
    }
    false
}

/// The balance a new user account starts with (money units): a hundred
/// million for admins, nothing for others.
pub fn initial_user_balance(is_admin: bool) -> (r: i128)
    ensures
        r == (if is_admin {
            1_000_000_000_000i128
        } else {
            0i128
        }),
{
    if is_admin {
        1_000_000_000_000
    } else {
        0
    }
}

/// Whether an authenticating client may act as the account it asks for
/// (0 asks for none): only one it owns.
pub fn may_act_as_on_connect(act_as: i64, owned_accounts: &[i64]) -> (r: bool)
    ensures
        r == (act_as == 0 || holds(owned_accounts@, act_as)),
{
    act_as == 0 || contains_id(owned_accounts, act_as)
}

/// Whether a sudo change is allowed: only admins may turn it on.
pub fn decide_sudo_change(is_admin: bool, enabled: bool) -> (r: Result<bool, &'static str>)
    ensures
        enabled && !is_admin ==> r == Err::<bool, &'static str>("Only admins can enable sudo"),
        !(enabled && !is_admin) ==> r == Ok::<bool, &'static str>(enabled),
{
    if enabled && !is_admin {
        Err("Only admins can enable sudo")
    } else {
        Ok(enabled)
    }
}

/// The text a request that needed admin powers is refused with: an admin
/// without sudo is told to enable it; others get a reason for the request.
pub open spec fn spec_admin_required_message(is_admin: bool, msg_type: Seq<char>) -> Seq<char> {
    if is_admin {
        "Sudo required"@
    } else if msg_type == "RevokeOwnership"@ {
        "Only admins can revoke ownership"@
    } else if msg_type == "ActAs"@ {
        "Not owner of account"@
    } else {
        "Admin access required"@
    }
}

/// The text a request that needed admin powers is refused with.
pub fn admin_required_message(is_admin: bool, msg_type: &str) -> (r: &'static str)
    ensures
        r@ == spec_admin_required_message(is_admin, msg_type@),
{
    if is_admin {
        "Sudo required"
    } else if str_eq(msg_type, "RevokeOwnership") {
        "Only admins can revoke ownership"
    } else if str_eq(msg_type, "ActAs") {
        "Not owner of account"
    } else {
        "Admin access required"
    }
}

/// What a request to act as another account gives.
#[derive(Clone, Copy, Debug, PartialEq, Eq, Structural)]
pub enum ActAsDecision {
    /// Acting as an account the client does not own needs admin powers.
    AdminRequired,
    /// The account does not exist.
    AccountNotFound,
    /// An admin may only act as someone else's user account.
    NotAUser,
    /// Act as the account; `admin_as_user` when an admin takes over
    /// another user.
    Act { account_id: i64, admin_as_user: bool },
}

/// Decide a request to act as `target`: any owned account; with admin
/// powers, also another user's account (`target_is_user` is `None` when
/// there is no such account).
pub fn decide_act_as(owned_accounts: &[i64], target: i64, has_admin: bool, target_is_user: Option<bool>) -> (r:
    ActAsDecision)
    ensures
        r == (if holds(owned_accounts@, target) {
            ActAsDecision::Act { account_id: target, admin_as_user: false }
        } else if !has_admin {
            ActAsDecision::AdminRequired
        } else {
            match target_is_user {
                None => ActAsDecision::AccountNotFound,
                Some(false) => ActAsDecision::NotAUser,
                Some(true) => ActAsDecision::Act { account_id: target, admin_as_user: true },
            }
        }),
{
    if contains_id(owned_accounts, target) {
        return ActAsDecision::Act { account_id: target, admin_as_user: false };
    }
    if !has_admin {
        return ActAsDecision::AdminRequired;
    }
    match target_is_user {
        None => ActAsDecision::AccountNotFound,
        Some(false) => ActAsDecision::NotAUser,
        Some(true) => ActAsDecision::Act { account_id: target, admin_as_user: true },
    }
}

/// Which fields a market edit touches.
#[derive(Clone, Copy, Debug)]
pub struct MarketEditFields {
    pub name: bool,
    pub description: bool,
    pub pinned: bool,
    pub status: i32,
    pub visible_to: bool,
    pub hide_account_ids: bool,
    pub redeemable_settings: bool,
}

/// Whether a market edit is allowed (`market` gives its owner and current
/// status, `None` when there is no such market): only admins may change
/// anything but the description; the description also its owner.
pub open spec fn spec_edit_market_permission(
    market: Option<(i64, i64)>,
    user_id: i64,
    is_admin: bool,
    fields: MarketEditFields,
) -> Result<(), Seq<char>> {
    match market {
        None => Err("Market not found"@),
        Some((owner_id, status)) => {
            let admin_only = fields.name || fields.pinned || status != fields.status as i64
                || fields.visible_to || fields.hide_account_ids || fields.redeemable_settings;
            if admin_only && !is_admin {
                Err(
                    "Only admins can edit market name, status, pinned, visibility, and redeemable settings"@,
                )
            } else if fields.description && !is_admin && owner_id != user_id {
                Err("You can only edit your own market's description"@)
            } else {
                Ok(())
            }
        },
    }
}

/// Decide whether a market edit is allowed.
pub fn decide_edit_market_permission(
    market: Option<(i64, i64)>,
    user_id: i64,
    is_admin: bool,
    fields: MarketEditFields,
) -> (r: Result<(), &'static str>)
    ensures
        match (r, spec_edit_market_permission(market, user_id, is_admin, fields)) {
            (Ok(()), Ok(())) => true,
            (Err(a), Err(b)) => a@ == b,
            _ => false,
        },
{
    let (owner_id, status) = match market {
        None => return Err("Market not found"),
        Some(m) => m,
    };
    let status_changed = status != fields.status as i64;
    let admin_only = fields.name || fields.pinned || status_changed || fields.visible_to
        || fields.hide_account_ids || fields.redeemable_settings;
    if admin_only && !is_admin {
        return Err(
            "Only admins can edit market name, status, pinned, visibility, and redeemable settings",
        );
    }
    if fields.description && !is_admin && owner_id != user_id {
        return Err("You can only edit your own market's description");
    }
    Ok(())
}

/// How the owned accounts of a session follow a fresh list.
pub struct OwnedAccountsUpdate {
    /// The session's accounts: those kept, in their order, then those added.
    pub owned: Vec<i64>,
    /// Accounts newly owned, in the fresh list's order.
    pub added: Vec<i64>,
    /// Accounts no longer owned, in the old order.
    pub removed: Vec<i64>,
    /// The account acted as afterwards: the user's own when the one acted
    /// as was removed.
    pub acting_as: i64,
}

/// The elements of `s` that `t` does not hold, in order.
pub open spec fn missing_from(s: Seq<i64>, t: Seq<i64>) -> Seq<i64>
    decreases s.len(),
{
    if s.len() == 0 {
        Seq::empty()
    } else {
        let rest = missing_from(s.drop_last(), t);
        if holds(t, s.last()) {
            rest
        } else {
            rest.push(s.last())
        }
    }
}

/// The elements of `s` that `t` holds, in order.
pub open spec fn kept_in(s: Seq<i64>, t: Seq<i64>) -> Seq<i64>
    decreases s.len(),
{
    if s.len() == 0 {
        Seq::empty()
    } else {
        let rest = kept_in(s.drop_last(), t);
        if holds(t, s.last()) {
            rest.push(s.last())
        } else {
            rest
        }
    }
}

/// The elements of `s` that `t` does not hold.
fn elements_missing_from(s: &Vec<i64>, t: &Vec<i64>) -> (r: Vec<i64>)
    ensures
        r@ == missing_from(s@, t@),
{
    let mut r: Vec<i64> = Vec::new();
    let mut i: usize = 0;
    while i < s.len()
        invariant
            i <= s@.len(),
            r@ == missing_from(s@.take(i as int), t@),
        decreases s@.len() - i,
    {
        proof {
            assert(s@.take(i + 1).drop_last() =~= s@.take(i as int));
            assert(s@.take(i + 1).last() == s@[i as int]);
        }
        if !contains_id(t.as_slice(), s[i]) {
            r.push(s[i]);
        }
        i = i + 1;
    }
    proof {
        assert(s@.take(s@.len() as int) =~= s@);
    }
    r
}

/// The elements of `s` that `t` holds.
fn elements_kept_in(s: &Vec<i64>, t: &Vec<i64>) -> (r: Vec<i64>)
    ensures
        r@ == kept_in(s@, t@),
{
    let mut r: Vec<i64> = Vec::new();
    let mut i: usize = 0;
    while i < s.len()
        invariant
            i <= s@.len(),
            r@ == kept_in(s@.take(i as int), t@),
        decreases s@.len() - i,
    {
        proof {
            assert(s@.take(i + 1).drop_last() =~= s@.take(i as int));
            assert(s@.take(i + 1).last() == s@[i as int]);
        }
        if contains_id(t.as_slice(), s[i]) {
            r.push(s[i]);
        }
        i = i + 1;
    }
    proof {
        assert(s@.take(s@.len() as int) =~= s@);
    }
    r
}

/// Follow a fresh list of owned accounts: those no longer owned are
/// dropped, new ones appended; acting as a dropped account falls back to
/// the user's own.
pub fn update_owned_accounts(owned: &Vec<i64>, fresh: &Vec<i64>, acting_as: i64, user_id: i64) -> (r:
    OwnedAccountsUpdate)
    ensures
        r.added@ == missing_from(fresh@, owned@),
        r.removed@ == missing_from(owned@, fresh@),
        r.owned@ == kept_in(owned@, fresh@) + missing_from(fresh@, owned@),
        r.acting_as == (if holds(missing_from(owned@, fresh@), acting_as) {
            user_id
        } else {
            acting_as
        }),
{
    let added = elements_missing_from(fresh, owned);
    let removed = elements_missing_from(owned, fresh);
    let kept = elements_kept_in(owned, fresh);
    let mut new_owned = kept;
    let mut i: usize = 0;
    let ghost kept_view = new_owned@;
    while i < added.len()
        invariant
            i <= added@.len(),
            new_owned@ == kept_view + added@.take(i as int),
        decreases added@.len() - i,
    {
        new_owned.push(added[i]);
        i = i + 1;
        proof {
            assert(added@.take(i as int) =~= added@.take(i - 1).push(added@[i - 1]));
        }
    }
    proof {
        assert(added@.take(added@.len() as int) =~= added@);
    }
    let new_acting_as = if contains_id(removed.as_slice(), acting_as) {
        user_id
    } else {
        acting_as
    };
    OwnedAccountsUpdate { owned: new_owned, added, removed, acting_as: new_acting_as }
}

proof fn lemma_missing_from(s: Seq<i64>, t: Seq<i64>, x: i64)
    ensures
        holds(missing_from(s, t), x) <==> holds(s, x) && !holds(t, x),
    decreases s.len(),
{
    if s.len() > 0 {
        let d = s.drop_last();
        lemma_missing_from(d, t, x);
        let m = missing_from(s, t);
        let md = missing_from(d, t);
        if holds(md, x) {
            let k = choose|k: int| 0 <= k < md.len() && md[k] == x;
            assert(m[k] == x);
        }
        if holds(d, x) {
            let k = choose|k: int| 0 <= k < d.len() && d[k] == x;
            assert(s[k] == x);
        }
        if holds(s, x) && !holds(d, x) {
            let k = choose|k: int| 0 <= k < s.len() && s[k] == x;
            if k < s.len() - 1 {
                assert(d[k] == x);
            }
            assert(s.last() == x);
        }
        if holds(m, x) && !holds(md, x) {
            let k = choose|k: int| 0 <= k < m.len() && m[k] == x;
            if k < md.len() {
                assert(md[k] == x);
            }
            assert(s.last() == x);
            assert(s[s.len() - 1] == x);
        }
        if !holds(t, s.last()) {
            assert(m[md.len() as int] == s.last());
        }
    }
}

proof fn lemma_kept_in(s: Seq<i64>, t: Seq<i64>, x: i64)
    ensures
        holds(kept_in(s, t), x) <==> holds(s, x) && holds(t, x),
    decreases s.len(),
{
    if s.len() > 0 {
        let d = s.drop_last();
        lemma_kept_in(d, t, x);
        let m = kept_in(s, t);
        let md = kept_in(d, t);
        if holds(md, x) {
            let k = choose|k: int| 0 <= k < md.len() && md[k] == x;
            assert(m[k] == x);
        }
        if holds(d, x) {
            let k = choose|k: int| 0 <= k < d.len() && d[k] == x;
            assert(s[k] == x);
        }
        if holds(s, x) && !holds(d, x) {
            let k = choose|k: int| 0 <= k < s.len() && s[k] == x;
            if k < s.len() - 1 {
                assert(d[k] == x);
            }
            assert(s.last() == x);
        }
        if holds(m, x) && !holds(md, x) {
            let k = choose|k: int| 0 <= k < m.len() && m[k] == x;
            if k < md.len() {
                assert(md[k] == x);
            }
            assert(s.last() == x);
            assert(s[s.len() - 1] == x);
        }
        if holds(t, s.last()) {
            assert(m[md.len() as int] == s.last());
        }
    }
}

/// After an update the session owns exactly the accounts of the fresh
/// list, and the account acted as is one it owns or the user's own (when
/// it was owned or the user's own before).
pub proof fn lemma_owned_accounts_follow(owned: Seq<i64>, fresh: Seq<i64>, acting_as: i64, user_id: i64, x: i64)
    requires
        holds(owned, acting_as) || acting_as == user_id,
    ensures
        holds(kept_in(owned, fresh) + missing_from(fresh, owned), x) <==> holds(fresh, x),
        ({
            let next = if holds(missing_from(owned, fresh), acting_as) {
                user_id
            } else {
                acting_as
            };
            holds(kept_in(owned, fresh) + missing_from(fresh, owned), next) || next == user_id
        }),
{
    let k = kept_in(owned, fresh);
    let m = missing_from(fresh, owned);
    lemma_kept_in(owned, fresh, x);
    lemma_missing_from(fresh, owned, x);
    lemma_holds_concat(k, m, x);
    lemma_kept_in(owned, fresh, acting_as);
    lemma_missing_from(owned, fresh, acting_as);
    lemma_holds_concat(k, m, acting_as);
}

proof fn lemma_holds_concat(a: Seq<i64>, b: Seq<i64>, x: i64)
    ensures
        holds(a + b, x) <==> holds(a, x) || holds(b, x),
{
    if holds(a, x) {
        let k = choose|k: int| 0 <= k < a.len() && a[k] == x;
        assert((a + b)[k] == x);
    }
    if holds(b, x) {
        let k = choose|k: int| 0 <= k < b.len() && b[k] == x;
        assert((a + b)[a.len() + k] == x);
    }
    if holds(a + b, x) {
        let k = choose|k: int| 0 <= k < (a + b).len() && (a + b)[k] == x;
        if k < a.len() {
            assert(a[k] == x);
        } else {
            assert(b[k - a.len()] == x);
        }
    }
}

/// The refusal a rate-limited request gets: admins' requests are counted
/// against their own, larger limit and are told so.
pub fn rate_limited_message(is_admin: bool) -> (r: &'static str)
    ensures
        is_admin ==> r@ == "ADMIN Rate Limited"@,
        !is_admin ==> r@ == "Rate Limited"@,
{
    if is_admin {
        "ADMIN Rate Limited"
    } else {
        "Rate Limited"
    }
}

/// Who is sent news of a market.
#[derive(Debug)]
pub enum Audience {
    /// Every connected client.
    Public,
    /// Only the listed accounts.
    Private(Vec<i64>),
}

/// Who is sent news of a market visible to `visible_to`: everyone when the
/// list is empty, else each listed account.
pub fn market_audience(visible_to: Vec<i64>) -> (r: Audience)
    ensures
        visible_to@.len() == 0 ==> r is Public,
        visible_to@.len() > 0 ==> (r matches Audience::Private(ids) && ids@ == visible_to@),
{
    if visible_to.len() == 0 {
        Audience::Public
    } else {
        Audience::Private(visible_to)
    }
}

/// The owners of a list of fills, in order.
pub open spec fn fill_owners(fills: Seq<crate::db::OrderFill>) -> Seq<i64> {
    fills.map_values(|f: crate::db::OrderFill| f.owner_id)
}

/// The accounts whose portfolios change when an order is placed: the owner
/// of each order it filled, in fill order, and then the account that placed
/// it.
pub fn order_created_notifications(fills: &Vec<crate::db::OrderFill>, acting_as: i64) -> (r: Vec<i64>)
    ensures
        r@ == fill_owners(fills@).push(acting_as),
{
    let mut ids: Vec<i64> = Vec::new();
    let mut i: usize = 0;
    while i < fills.len()
        invariant
            i <= fills@.len(),
            ids@ == fill_owners(fills@.take(i as int)),
        decreases fills@.len() - i,
    {
        proof {
            assert(fill_owners(fills@.take(i + 1)) =~= fill_owners(fills@.take(i as int)).push(
                fills@[i as int].owner_id,
            ));
        }
        ids.push(fills[i].owner_id);
        i = i + 1;
    }
    proof {
        assert(fills@.take(fills@.len() as int) =~= fills@);
    }
    ids.push(acting_as);
    ids
}

} // verus!

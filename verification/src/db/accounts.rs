//! Accounts, universes and who owns what: the checks made when accounts
//! and universes are created, when ownership is shared or revoked, and how
//! a user's account gets its name.
use vstd::prelude::*;

use super::portfolio::OwnerCredit;
use super::transfers::{find_credit, find_owner_credit};
use super::ValidationFailure;
use crate::numbers::{decimal, decimal_u64};
use crate::text::{
    ascii_lower, ascii_lowercase, opt_view, str_eq, trim, trimmed,
};

verus! {

/// An account.
#[derive(Debug)]
pub struct Account {
    pub id: i64,
    pub name: String,
    pub is_user: bool,
    pub universe_id: i64,
    pub color: Option<String>,
}

/// A universe: a separate set of accounts and markets.
#[derive(Debug)]
pub struct Universe {
    pub id: i64,
    pub name: String,
    pub description: String,
    pub owner_id: Option<i64>,
}

/// A kind of market.
#[derive(Debug)]
pub struct MarketType {
    pub id: i64,
    pub name: String,
    pub description: String,
    pub public: bool,
}

/// A group of markets of one type.
#[derive(Debug)]
pub struct MarketGroup {
    pub id: i64,
    pub name: String,
    pub description: String,
    pub type_id: i64,
}

/// The account a user signs in as, with its name when it was just created.
pub struct EnsureUserCreatedSuccess {
    pub id: i64,
    pub name: Option<String>,
}

/// An ASCII hexadecimal digit.
pub open spec fn is_hex_digit(c: char) -> bool {
    ('0' <= c <= '9') || ('a' <= c <= 'f') || ('A' <= c <= 'F')
}

/// A colour written `#` and six hexadecimal digits.
pub open spec fn valid_color(s: Seq<char>) -> bool {
    &&& s.len() == 7
    &&& s[0] == '#'
    &&& forall|i: int| 1 <= i < 7 ==> is_hex_digit(#[trigger] s[i])
}

/// Whether `color` is written `#` and six hexadecimal digits.
pub fn is_valid_account_color(color: &str) -> (r: bool)
    ensures
        r == valid_color(color@),
{
    if color.unicode_len() != 7 || color.get_char(0) != '#' {
        return false;
    }
    let mut i: usize = 1;
    while i < 7
        invariant
            color@.len() == 7,
            1 <= i <= 7,
            forall|k: int| 1 <= k < i ==> is_hex_digit(#[trigger] color@[k]),
        decreases 7 - i,
    {
        let c = color.get_char(i);
        if !(('0' <= c && c <= '9') || ('a' <= c && c <= 'f') || ('A' <= c && c <= 'F')) {
            return false;
        }
        i = i + 1;
    }
    true
}

/// What the name and colour of a new account give: an empty (blank) name
/// is refused; a blank colour means none; any other colour must be `#` and
/// six hexadecimal digits once trimmed, and is kept in lowercase.
pub open spec fn spec_account_request(name: Seq<char>, color: Option<Seq<char>>) -> Result<
    Option<Seq<char>>,
    ValidationFailure,
> {
    if trimmed(name).len() == 0 {
        Err(ValidationFailure::EmptyName)
    } else {
        match color {
            None => Ok(None),
            Some(c) => {
                let t = trimmed(c);
                if t.len() == 0 {
                    Ok(None)
                } else if valid_color(t) {
                    Ok(Some(t.map_values(|ch: char| ascii_lower(ch))))
                } else {
                    Err(ValidationFailure::InvalidAccountColor)
                }
            },
        }
    }
}

/// Check the name and colour of a new account; gives the colour to store.
pub fn validate_account_request(name: &str, color: Option<&str>) -> (r: Result<
    Option<String>,
    ValidationFailure,
>)
    ensures
        match (r, spec_account_request(
            name@,
            match color {
                Some(c) => Some(c@),
                None => None,
            },
        )) {
            (Ok(a), Ok(b)) => opt_view(a) == b,
            (Err(a), Err(b)) => a == b,
            _ => false,
        },
{
    if trim(name).unicode_len() == 0 {
        return Err(ValidationFailure::EmptyName);
    }
    match color {
        None => Ok(None),
        Some(c) => {
            let t = trim(c);
            if t.unicode_len() == 0 {
                Ok(None)
            } else if is_valid_account_color(t.as_str()) {
                Ok(Some(ascii_lowercase(t.as_str())))
            } else {
                Err(ValidationFailure::InvalidAccountColor)
            }
        },
    }
}

/// Whether an account may be created in a universe: the universe must
/// exist (`universe_owner` is `None` when it does not, else its owner); only
/// its owner may create accounts in a universe other than the main one
/// (universe 0), and in the main universe no account starts with money.
pub open spec fn spec_account_universe(
    universe_id: i64,
    universe_owner: Option<Option<i64>>,
    user_id: i64,
    positive_initial_balance: bool,
) -> Result<(), ValidationFailure> {
    match universe_owner {
        None => Err(ValidationFailure::UniverseNotFound),
        Some(owner) => if universe_id != 0 && owner != Some(user_id) {
            Err(ValidationFailure::NotUniverseOwner)
        } else if universe_id == 0 && positive_initial_balance {
            Err(ValidationFailure::NotUniverseOwner)
        } else {
            Ok(())
        },
    }
}

/// Check the universe of a new account.
pub fn check_account_universe(
    universe_id: i64,
    universe_owner: Option<Option<i64>>,
    user_id: i64,
    positive_initial_balance: bool,
) -> (r: Result<(), ValidationFailure>)
    ensures
        r == spec_account_universe(universe_id, universe_owner, user_id, positive_initial_balance),
{
    match universe_owner {
        None => Err(ValidationFailure::UniverseNotFound),
        Some(owner) => {
            if universe_id != 0 {
                let owns = match owner {
                    Some(o) => o == user_id,
                    None => false,
                };
                if !owns {
                    return Err(ValidationFailure::NotUniverseOwner);
                }
            }
            if universe_id == 0 && positive_initial_balance {
                return Err(ValidationFailure::NotUniverseOwner);
            }
            Ok(())
        },
    }
}

/// Whether the chosen owner of a new account is acceptable: the user
/// themselves or an account the user owns; in the main universe or the new
/// account's; a user account when it is in the main universe and the new
/// account is not.  Then the name must be free.
pub open spec fn spec_account_owner(
    owner_id: i64,
    user_id: i64,
    user_owns_owner: bool,
    owner_universe: i64,
    owner_is_user: bool,
    universe_id: i64,
    name_taken: bool,
) -> Result<(), ValidationFailure> {
    if !(owner_id == user_id || user_owns_owner) {
        Err(ValidationFailure::InvalidOwner)
    } else if owner_universe != 0 && owner_universe != universe_id {
        Err(ValidationFailure::OwnerInDifferentUniverse)
    } else if universe_id != 0 && owner_universe == 0 && !owner_is_user {
        Err(ValidationFailure::OwnerMustBeUser)
    } else if name_taken {
        Err(ValidationFailure::NameAlreadyExists)
    } else {
        Ok(())
    }
}

/// Check the owner of a new account, and that its name was free.
pub fn check_account_owner(
    owner_id: i64,
    user_id: i64,
    user_owns_owner: bool,
    owner_universe: i64,
    owner_is_user: bool,
    universe_id: i64,
    name_taken: bool,
) -> (r: Result<(), ValidationFailure>)
    ensures
        r == spec_account_owner(
            owner_id,
            user_id,
            user_owns_owner,
            owner_universe,
            owner_is_user,
            universe_id,
            name_taken,
        ),
{
    if !(owner_id == user_id || user_owns_owner) {
        return Err(ValidationFailure::InvalidOwner);
    }
    if owner_universe != 0 && owner_universe != universe_id {
        return Err(ValidationFailure::OwnerInDifferentUniverse);
    }
    if universe_id != 0 && owner_universe == 0 && !owner_is_user {
        return Err(ValidationFailure::OwnerMustBeUser);
    }
    if name_taken {
        return Err(ValidationFailure::NameAlreadyExists);
    }
    Ok(())
}

/// Whether a universe may be created: its name must not be blank, and must
/// be free.
pub fn decide_create_universe(name: &str, name_taken: bool) -> (r: Result<(), ValidationFailure>)
    ensures
        r == (if trimmed(name@).len() == 0 {
            Err(ValidationFailure::EmptyName)
        } else if name_taken {
            Err(ValidationFailure::UniverseNameExists)
        } else {
            Ok(())
        }),
{
    if trim(name).unicode_len() == 0 {
        return Err(ValidationFailure::EmptyName);
    }
    if name_taken {
        return Err(ValidationFailure::UniverseNameExists);
    }
    Ok(())
}

/// Whether a user may share an account with another user: the sharer must be
/// a user and a direct owner of the account, the recipient a user who does
/// not own it yet (`newly_added` is false when the ownership already
/// existed).
pub fn decide_share_ownership(
    owner_is_user: bool,
    is_direct_owner: bool,
    recipient_is_user: bool,
    newly_added: bool,
) -> (r: Result<(), ValidationFailure>)
    ensures
        r == (if !owner_is_user {
            Err(ValidationFailure::OwnerNotAUser)
        } else if !is_direct_owner {
            Err(ValidationFailure::NotOwner)
        } else if !recipient_is_user {
            Err(ValidationFailure::RecipientNotAUser)
        } else if !newly_added {
            Err(ValidationFailure::AlreadyOwner)
        } else {
            Ok(())
        }),
{
    if !owner_is_user {
        Err(ValidationFailure::OwnerNotAUser)
    } else if !is_direct_owner {
        Err(ValidationFailure::NotOwner)
    } else if !recipient_is_user {
        Err(ValidationFailure::RecipientNotAUser)
    } else if !newly_added {
        Err(ValidationFailure::AlreadyOwner)
    } else {
        Ok(())
    }
}

/// Whether an ownership may be revoked: the former owner must be a user who
/// owns the account, the account must exist (`owner_credits` is `None` when
/// it does not), and the former owner's credit in it (the first one it
/// holds) must be zero.
pub open spec fn spec_revoke_ownership(
    former_is_user: bool,
    ownership_exists: bool,
    owner_credits: Option<Seq<OwnerCredit>>,
    from_account_id: i64,
) -> Result<(), ValidationFailure> {
    if !former_is_user {
        Err(ValidationFailure::RecipientNotAUser)
    } else if !ownership_exists {
        Err(ValidationFailure::AccountNotShared)
    } else {
        match owner_credits {
            None => Err(ValidationFailure::AccountNotFound),
            Some(cs) => match find_credit(cs, from_account_id) {
                Some(i) => if cs[i].credit != 0 {
                    Err(ValidationFailure::CreditRemaining)
                } else {
                    Ok(())
                },
                None => Ok(()),
            },
        }
    }
}

/// Decide the revocation of an ownership.
pub fn decide_revoke_ownership(
    former_is_user: bool,
    ownership_exists: bool,
    owner_credits: Option<&Vec<OwnerCredit>>,
    from_account_id: i64,
) -> (r: Result<(), ValidationFailure>)
    ensures
        r == spec_revoke_ownership(
            former_is_user,
            ownership_exists,
            match owner_credits {
                Some(cs) => Some(cs@),
                None => None,
            },
            from_account_id,
        ),
{
    if !former_is_user {
        return Err(ValidationFailure::RecipientNotAUser);
    }
    if !ownership_exists {
        return Err(ValidationFailure::AccountNotShared);
    }
    match owner_credits {
        None => Err(ValidationFailure::AccountNotFound),
        Some(cs) => match find_owner_credit(cs, from_account_id) {
            Some(i) => if cs[i].credit != 0 {
                Err(ValidationFailure::CreditRemaining)
            } else {
                Ok(())
            },
            None => Ok(()),
        },
    }
}

/// The name a new user account gets: the requested name, or, when another
/// account has it, the requested name, `-` and characters 3 to 9 of the
/// user's id.
pub open spec fn spec_new_user_name(requested: Seq<char>, kinde_id: Seq<char>, conflict: bool) -> Seq<char> {
    if conflict {
        requested + seq!['-'] + kinde_id.subrange(3, 10)
    } else {
        requested
    }
}

/// Name a new user account.  When the requested name is taken, the user's
/// id (ASCII, at least ten characters) supplies a distinguishing suffix.
pub fn new_user_name(requested: &str, kinde_id: &str, conflict: bool) -> (r: String)
    requires
        conflict ==> kinde_id.is_ascii() && kinde_id@.len() >= 10,
    ensures
        r@ == spec_new_user_name(requested@, kinde_id@, conflict),
{
    if conflict {
        let suffix = kinde_id.substring_ascii(3, 10);
        let r = String::from_str(requested).concat("-").concat(suffix);
        proof {
            reveal_strlit("-");
        }
        r
    } else {
        String::from_str(requested)
    }
}

/// The name of the account that greets new users with a gift.
pub open spec fn arbor_pixie_name() -> Seq<char> {
    "Arbor Pixie"@
}

/// Whether a requested name is that of the greeting account.
pub fn is_arbor_pixie_name(name: &str) -> (r: bool)
    ensures
        r == (name@ == arbor_pixie_name()),
{
    str_eq(name, "Arbor Pixie")
}

/// How a signing-in user gets an account.
#[derive(Clone, Copy, Debug, PartialEq, Eq, Structural)]
pub enum UserAccountPlan {
    /// The user already has this account.
    Existing(i64),
    /// An unclaimed account (pre-registered by email, or the greeting
    /// account) becomes the user's.
    Claim(i64),
    /// A new account is created.
    Create,
}

/// Choose a signing-in user's account: the one they have; else one
/// pre-registered for their email; else, when they ask for the greeting
/// account's name, that account if unclaimed; else a new one.
pub fn decide_user_account(
    existing: Option<i64>,
    preregistered: Option<i64>,
    unclaimed_greeter: Option<i64>,
) -> (r: UserAccountPlan)
    ensures
        r == (match existing {
            Some(id) => UserAccountPlan::Existing(id),
            None => match preregistered {
                Some(id) => UserAccountPlan::Claim(id),
                None => match unclaimed_greeter {
                    Some(id) => UserAccountPlan::Claim(id),
                    None => UserAccountPlan::Create,
                },
            },
        }),
{
    match existing {
        Some(id) => UserAccountPlan::Existing(id),
        None => match preregistered {
            Some(id) => UserAccountPlan::Claim(id),
            None => match unclaimed_greeter {
                Some(id) => UserAccountPlan::Claim(id),
                None => UserAccountPlan::Create,
            },
        },
    }
}

/// The suffix tried at a given attempt: none at first, then 2, 3, ... 999.
pub open spec fn attempt_suffix(attempt: nat) -> nat {
    if attempt == 0 {
        0
    } else {
        attempt + 1
    }
}

/// The candidate name at an attempt: the base, then the base, `-` and the
/// suffix.
pub open spec fn name_candidate_spec(base: Seq<char>, attempt: nat) -> Seq<char> {
    if attempt == 0 {
        base
    } else {
        base + seq!['-'] + decimal(attempt + 1)
    }
}

/// The candidate name at an attempt.
pub fn name_candidate(base: &str, attempt: u32) -> (r: String)
    requires
        attempt < 999,
    ensures
        r@ == name_candidate_spec(base@, attempt as nat),
{
    if attempt == 0 {
        String::from_str(base)
    } else {
        let suffix = decimal_u64((attempt + 1) as u64);
        proof {
            reveal_strlit("-");
        }
        String::from_str(base).concat("-").concat(suffix.as_str())
    }
}

/// What to do after looking a candidate name up.
#[derive(Clone, Copy, Debug, PartialEq, Eq, Structural)]
pub enum NameStep {
    /// The candidate is free (or held by the account being renamed).
    Accept,
    /// Try the next attempt.
    Try(u32),
    /// Every suffix up to 999 is taken.
    Exhausted,
}

/// After looking up the candidate of `attempt` (`holder` is the account
/// holding that name, if any): accept it when free or held by the excluded
/// account, else move on to the next suffix, up to 999.
pub fn name_step(attempt: u32, holder: Option<i64>, excluded: Option<i64>) -> (r: NameStep)
    requires
        attempt < 999,
    ensures
        r == (match holder {
            None => NameStep::Accept,
            Some(id) => if excluded == Some(id) {
                NameStep::Accept
            } else if attempt + 1 < 999 {
                NameStep::Try((attempt + 1) as u32)
            } else {
                NameStep::Exhausted
            },
        }),
{
    match holder {
        None => NameStep::Accept,
        Some(id) => {
            let is_excluded = match excluded {
                Some(e) => e == id,
                None => false,
            };
            if is_excluded {
                NameStep::Accept
            } else if attempt + 1 < 999 {
                NameStep::Try(attempt + 1)
            } else {
                NameStep::Exhausted
            }
        },
    }
}

/// The id of the first account in `accounts` named `name`, as a lookup of
/// one row by name finds it.
pub open spec fn name_holder(accounts: Seq<Account>, name: Seq<char>) -> Option<i64>
    decreases accounts.len(),
{
    if accounts.len() == 0 {
        None
    } else if accounts[0].name@ == name {
        Some(accounts[0].id)
    } else {
        name_holder(accounts.drop_first(), name)
    }
}

/// Whether the candidate of `attempt` is free: no account holds it, or the
/// one that does is the excluded account.
pub open spec fn candidate_free(accounts: Seq<Account>, base: Seq<char>, attempt: nat, excluded: Option<i64>) -> bool {
    match name_holder(accounts, name_candidate_spec(base, attempt)) {
        None => true,
        Some(id) => excluded == Some(id),
    }
}

/// The holder of `name` among `accounts`.
fn find_name_holder(accounts: &Vec<Account>, name: &str) -> (r: Option<i64>)
    ensures
        r == name_holder(accounts@, name@),
{
    let mut i: usize = 0;
    proof {
        assert(accounts@.skip(0) =~= accounts@);
    }
    while i < accounts.len()
        invariant
            i <= accounts@.len(),
            name_holder(accounts@, name@) == name_holder(accounts@.skip(i as int), name@),
        decreases accounts@.len() - i,
    {
        proof {
            assert(accounts@.skip(i as int)[0] == accounts@[i as int]);
            assert(accounts@.skip(i as int).drop_first() =~= accounts@.skip(i + 1));
        }
        if str_eq(accounts[i].name.as_str(), name) {
            return Some(accounts[i].id);
        }
        i = i + 1;
    }
    None
}

/// Suggest an account name from `base`, given the accounts that exist: the
/// first of `base`, `base-2`, `base-3`, ..., `base-999` that no account
/// holds (an account held by `excluded`, the one being renamed, does not
/// count); refused when all of them are taken.
pub fn suggest_account_name(base: &str, accounts: &Vec<Account>, excluded: Option<i64>) -> (r: Result<
    String,
    ValidationFailure,
>)
    ensures
        r matches Ok(name) ==> exists|k: nat|
            #![trigger name_candidate_spec(base@, k)]
            k < 999 && name@ == name_candidate_spec(base@, k) && candidate_free(
                accounts@,
                base@,
                k,
                excluded,
            ) && forall|j: nat| j < k ==> !#[trigger] candidate_free(accounts@, base@, j, excluded),
        r is Err <==> forall|k: nat| k < 999 ==> !#[trigger] candidate_free(accounts@, base@, k, excluded),
        r matches Err(f) ==> f == ValidationFailure::NameSuffixExhausted,
{
    let mut attempt: u32 = 0;
    loop
        invariant
            attempt < 999,
            forall|j: nat| j < attempt ==> !#[trigger] candidate_free(accounts@, base@, j, excluded),
        decreases 999 - attempt,
    {
        let candidate = name_candidate(base, attempt);
        let holder = find_name_holder(accounts, candidate.as_str());
        match name_step(attempt, holder, excluded) {
            NameStep::Accept => {
                proof {
                    assert(candidate_free(accounts@, base@, attempt as nat, excluded));
                    assert(candidate@ == name_candidate_spec(base@, attempt as nat));
                }
                return Ok(candidate);
            },
            NameStep::Try(next) => {
                proof {
                    assert(!candidate_free(accounts@, base@, attempt as nat, excluded));
                    assert forall|j: nat| j < next implies !#[trigger] candidate_free(
                        accounts@,
                        base@,
                        j,
                        excluded,
                    ) by {
                        if j < attempt {
                        } else {
                            assert(j == attempt);
                        }
                    }
                }
                attempt = next;
            },
            NameStep::Exhausted => {
                proof {
                    assert(!candidate_free(accounts@, base@, attempt as nat, excluded));
                    assert forall|k: nat| k < 999 implies !#[trigger] candidate_free(
                        accounts@,
                        base@,
                        k,
                        excluded,
                    ) by {
                        if k < attempt {
                        } else {
                            assert(k == attempt);
                        }
                    }
                }
                return Err(ValidationFailure::NameSuffixExhausted);
            },
        }
    }
}

/// The name base of an email address: what comes before the first `@`.
pub open spec fn email_name_base_spec(email: Seq<char>) -> Seq<char> {
    crate::text::split_seq(email, "@"@)[0]
}

/// The name base of an email address: what comes before the first `@`, or
/// the whole address.
pub fn email_name_base(email: &str) -> (r: String)
    ensures
        r@ == email_name_base_spec(email@),
{
    proof {
        reveal_strlit("@");
    }
    let parts = crate::text::split(email, "@");
    proof {
        crate::text::lemma_split_nonempty(email@, "@"@);
        assert(crate::text::views(parts@)[0] == parts@[0]@);
    }
    parts[0].clone()
}

} // verus!

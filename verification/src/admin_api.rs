//! The rules behind the cohort and admin REST endpoints: configuration
//! values, display-name input, uploaded images, and the answers to an
//! admin-status change.
use vstd::prelude::*;

use crate::global_db::{CohortInfo, SetUserAdminResult};
use crate::numbers::{format_i64, parse_i64, parse_i64_spec, signed_decimal};
use crate::text::{has_prefix, opt_view, starts_with, str_eq, trim, trimmed};

verus! {

/// The first cohort with id `id`.
pub open spec fn cohort_index(cohorts: Seq<CohortInfo>, id: i64) -> Option<int>
    decreases cohorts.len(),
{
    if cohorts.len() == 0 {
        None
    } else {
        match cohort_index(cohorts.drop_last(), id) {
            Some(i) => Some(i),
            None => if cohorts.last().id == id {
                Some(cohorts.len() - 1)
            } else {
                None
            },
        }
    }
}

proof fn lemma_cohort_index(cohorts: Seq<CohortInfo>, id: i64)
    ensures
        cohort_index(cohorts, id) matches Some(i) ==> 0 <= i < cohorts.len() && cohorts[i].id == id
            && forall|k: int| 0 <= k < i ==> cohorts[k].id != id,
        cohort_index(cohorts, id) is None ==> forall|k: int| 0 <= k < cohorts.len() ==> cohorts[k].id != id,
    decreases cohorts.len(),
{
    if cohorts.len() > 0 {
        let t = cohorts.drop_last();
        lemma_cohort_index(t, id);
        assert forall|k: int| 0 <= k < t.len() implies t[k] == cohorts[k] by {}
        assert(cohorts.last() == cohorts[cohorts.len() - 1]);
    }
}

/// The name of the cohort a configuration value (a cohort id in decimal)
/// designates: none when the value is missing, is not a number, or names
/// no cohort.
pub open spec fn spec_cohort_for_config(value: Option<Seq<char>>, cohorts: Seq<CohortInfo>) -> Option<Seq<char>> {
    match value {
        None => None,
        Some(v) => match parse_i64_spec(v) {
            None => None,
            Some(id) => match cohort_index(cohorts, id) {
                None => None,
                Some(i) => Some(cohorts[i].name@),
            },
        },
    }
}

/// The name of the cohort a configuration value designates.
pub fn cohort_name_for_config(value: Option<&str>, cohorts: &Vec<CohortInfo>) -> (r: Option<String>)
    ensures
        opt_view(r) == spec_cohort_for_config(
            match value {
                Some(v) => Some(v@),
                None => None,
            },
            cohorts@,
        ),
{
    let v = match value {
        None => return None,
        Some(v) => v,
    };
    let id = match parse_i64(v) {
        None => return None,
        Some(id) => id,
    };
    proof {
        lemma_cohort_index(cohorts@, id);
    }
    let mut i: usize = 0;
    while i < cohorts.len()
        invariant
            i <= cohorts@.len(),
            parse_i64_spec(v@) == Some(id),
            value == Some(v),
            forall|k: int| 0 <= k < i ==> cohorts@[k].id != id,
            cohort_index(cohorts@, id) matches Some(j) ==> 0 <= j < cohorts@.len() && cohorts@[j].id
                == id && forall|k: int| 0 <= k < j ==> cohorts@[k].id != id,
            cohort_index(cohorts@, id) is None ==> forall|k: int|
                0 <= k < cohorts@.len() ==> cohorts@[k].id != id,
        decreases cohorts@.len() - i,
    {
        if cohorts[i].id == id {
            let name = cohorts[i].name.clone();
            proof {
                assert(cohort_index(cohorts@, id) == Some(i as int));
                assert(name@ == cohorts@[i as int].name@);
                assert(parse_i64_spec(v@) == Some(id));
            }
            return Some(name);
        }
        i = i + 1;
    }
    None
}

/// Whether a boolean configuration flag is on: stored exactly as `true`.
pub fn config_flag_enabled(value: Option<&str>) -> (r: bool)
    ensures
        r == (value matches Some(v) && v@ == "true"@),
{
    match value {
        Some(v) => str_eq(v, "true"),
        None => false,
    }
}

/// The stored form of an optional cohort id: the id in decimal, or empty.
pub fn config_value_for_id(id: Option<i64>) -> (r: String)
    ensures
        r@ == match id {
            Some(n) => signed_decimal(n as int),
            None => Seq::<char>::empty(),
        },
{
    match id {
        Some(n) => format_i64(n),
        None => String::new(),
    }
}

/// A new display name as entered: trimmed, and refused when nothing is
/// left.
pub fn display_name_input(raw: &str) -> (r: Result<String, &'static str>)
    ensures
        trimmed(raw@).len() == 0 ==> r == Err::<String, &'static str>("Display name cannot be empty"),
        trimmed(raw@).len() > 0 ==> (r matches Ok(n) && n@ == trimmed(raw@)),
{
    let t = trim(raw);
    if t.unicode_len() == 0 {
        Err("Display name cannot be empty")
    } else {
        Ok(t)
    }
}

/// Whether an upload's content type is an image type.
pub fn is_image_content_type(content_type: &str) -> (r: bool)
    ensures
        r == has_prefix(content_type@, "image/"@),
{
    starts_with(content_type, "image/")
}

/// The content type an image is served with, from its file extension.
pub open spec fn spec_image_content_type(extension: Option<Seq<char>>) -> Seq<char> {
    match extension {
        Some(e) => if e == "jpg"@ || e == "jpeg"@ {
            "image/jpeg"@
        } else if e == "png"@ {
            "image/png"@
        } else if e == "gif"@ {
            "image/gif"@
        } else if e == "webp"@ {
            "image/webp"@
        } else {
            "application/octet-stream"@
        },
        None => "application/octet-stream"@,
    }
}

/// The content type an image is served with.
pub fn image_content_type(extension: Option<&str>) -> (r: &'static str)
    ensures
        r@ == spec_image_content_type(
            match extension {
                Some(e) => Some(e@),
                None => None,
            },
        ),
{
    match extension {
        Some(e) => {
            if str_eq(e, "jpg") || str_eq(e, "jpeg") {
                "image/jpeg"
            } else if str_eq(e, "png") {
                "image/png"
            } else if str_eq(e, "gif") {
                "image/gif"
            } else if str_eq(e, "webp") {
                "image/webp"
            } else {
                "application/octet-stream"
            }
        },
        None => "application/octet-stream",
    }
}

/// The HTTP answer to an admin-status change: its status code and, for a
/// refusal, the reason.
pub fn set_user_admin_response(result: SetUserAdminResult) -> (r: (u16, &'static str))
    ensures
        result == SetUserAdminResult::Applied ==> r.0 == 200,
        result == SetUserAdminResult::UserNotFound ==> r.0 == 404 && r.1@ == "User not found"@,
        result == SetUserAdminResult::BlockedByKindeRole ==> r.0 == 409 && r.1@
            == "Cannot revoke admin: this user has the Kinde admin role. Revoke the role in Kinde instead."@,
{
    match result {
        SetUserAdminResult::Applied => (200, ""),
        SetUserAdminResult::UserNotFound => (404, "User not found"),
        SetUserAdminResult::BlockedByKindeRole => (
            409,
            "Cannot revoke admin: this user has the Kinde admin role. Revoke the role in Kinde instead.",
        ),
    }
}

} // verus!

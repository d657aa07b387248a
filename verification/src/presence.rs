//! Presence records: matching records against criteria and their validity window.
use vstd::prelude::*;

use crate::model::PresenceRecord;
use crate::text::{opt_view, text_eq};
use crate::time::{day_of_secs, DateTime};

verus! {

/// The value of the first pair with the given key, if any.
pub open spec fn lookup(attrs: Seq<(String, String)>, key: Seq<char>) -> Option<Seq<char>>
    decreases attrs.len(),
{
    if attrs.len() == 0 {
        None
    } else if attrs[0].0@ == key {
        Some(attrs[0].1@)
    } else {
        lookup(attrs.drop_first(), key)
    }
}

/// Whether a record is valid on the date of `now`: on or after its first
/// day and, when it expires, not after its last day.
pub open spec fn valid_on(rec: PresenceRecord, now: DateTime) -> bool {
    &&& rec.valid_from.days <= day_of_secs(now.secs as int)
    &&& match rec.valid_until {
        Some(until) => day_of_secs(now.secs as int) <= until.days,
        None => true,
    }
}

/// Whether a record matches: same key, the required type if one is given,
/// valid on the date of `now`, and every required attribute present with
/// the required value.
pub open spec fn record_satisfies(
    rec: PresenceRecord,
    key: Seq<char>,
    record_type: Option<Seq<char>>,
    attributes: Seq<(String, String)>,
    now: DateTime,
) -> bool {
    &&& rec.key@ == key
    &&& match record_type {
        Some(t) => opt_view(rec.record_type) == Some(t),
        None => true,
    }
    &&& valid_on(rec, now)
    &&& forall|i: int|
        0 <= i < attributes.len() ==> lookup(rec.attributes@, (#[trigger] attributes[i]).0@) == Some(attributes[i].1@)
}

/// Whether a record has expired by the date of `now`.
pub open spec fn spec_expired(rec: PresenceRecord, now: DateTime) -> bool {
    match rec.valid_until {
        Some(until) => day_of_secs(now.secs as int) > until.days,
        None => false,
    }
}

/// The value of the first pair with the given key.
fn find_attribute<'a>(attrs: &'a Vec<(String, String)>, key: &String) -> (r: Option<&'a String>)
    ensures
        match r {
            Some(v) => lookup(attrs@, key@) == Some(v@),
            None => lookup(attrs@, key@) is None,
        },
{
    let mut i: usize = 0;
    assert(attrs@.skip(0) =~= attrs@);
    while i < attrs.len()
        invariant
            i <= attrs@.len(),
            lookup(attrs@, key@) == lookup(attrs@.skip(i as int), key@),
        decreases attrs@.len() - i,
    {
        assert(attrs@.skip(i as int)[0] == attrs@[i as int]);
        assert(attrs@.skip(i as int).drop_first() =~= attrs@.skip(i + 1));
        if text_eq(&attrs[i].0, key) {
            return Some(&attrs[i].1);
        }
        i += 1;
    }
    None
}

/// Whether one record matches the key, type, attributes and date.
pub fn record_satisfies_criteria(
    rec: &PresenceRecord,
    key: &String,
    record_type: &Option<String>,
    attributes: &Vec<(String, String)>,
    now: DateTime,
) -> (r: bool)
    ensures
        r == record_satisfies(*rec, key@, opt_view(*record_type), attributes@, now),
{
    if !text_eq(&rec.key, key) {
        return false;
    }
    if let Some(rt) = record_type {
        match &rec.record_type {
            Some(t) => {
                if !text_eq(t, rt) {
                    return false;
                }
            },
            None => {
                return false;
            },
        }
    }
    let today = now.date();
    if today.days < rec.valid_from.days {
        return false;
    }
    if let Some(until) = rec.valid_until {
        if today.days > until.days {
            return false;
        }
    }
    let mut i: usize = 0;
    while i < attributes.len()
        invariant
            i <= attributes@.len(),
            forall|j: int|
                0 <= j < i ==> lookup(rec.attributes@, (#[trigger] attributes@[j]).0@) == Some(attributes@[j].1@),
        decreases attributes@.len() - i,
    {
        match find_attribute(&rec.attributes, &attributes[i].0) {
            Some(v) => {
                if !text_eq(v, &attributes[i].1) {
                    return false;
                }
            },
            None => {
                return false;
            },
        }
        i += 1;
    }
    true
}

/// Whether any record matches: same key, the required type if one is given,
/// valid on the date of `current_date`, and every required attribute with its value.
pub fn record_matches(
    records: &Vec<&PresenceRecord>,
    key: &String,
    record_type: &Option<String>,
    attributes: &Vec<(String, String)>,
    current_date: DateTime,
) -> (r: bool)
    ensures
        r == exists|i: int|
            0 <= i < records@.len() && record_satisfies(
                *#[trigger] records@[i],
                key@,
                opt_view(*record_type),
                attributes@,
                current_date,
            ),
{
    let mut i: usize = 0;
    while i < records.len()
        invariant
            i <= records@.len(),
            forall|j: int|
                0 <= j < i ==> !record_satisfies(
                    *#[trigger] records@[j],
                    key@,
                    opt_view(*record_type),
                    attributes@,
                    current_date,
                ),
        decreases records@.len() - i,
    {
        if record_satisfies_criteria(records[i], key, record_type, attributes, current_date) {
            return true;
        }
        i += 1;
    }
    false
}

/// Whether a record has expired: it has a last day and the date of `now` is after it.
pub fn is_expired(rec: &PresenceRecord, now: DateTime) -> (r: bool)
    ensures
        r == spec_expired(*rec, now),
{
    match rec.valid_until {
        Some(until) => now.date().days > until.days,
        None => false,
    }
}

/// A record that has expired is not valid, whatever the criteria.
pub proof fn lemma_expired_never_matches(
    rec: PresenceRecord,
    key: Seq<char>,
    record_type: Option<Seq<char>>,
    attributes: Seq<(String, String)>,
    now: DateTime,
)
    requires
        spec_expired(rec, now),
    ensures
        !record_satisfies(rec, key, record_type, attributes, now),
{
}

} // verus!

//! The name of the package file: the time in milliseconds, `_`, the deck's
//! name made safe for a file system, and `.apkg`.
use vstd::prelude::*;
use crate::text::{decimal, decimal_string};

verus! {

#[verifier::external_type_specification]
#[verifier::external_body]
pub struct ExSystemTime(std::time::SystemTime);

#[verifier::external_type_specification]
#[verifier::external_body]
pub struct ExSystemTimeError(std::time::SystemTimeError);

/// Relies on `SystemTime::now`: the current time of the system clock.
pub assume_specification[ std::time::SystemTime::now ]() -> std::time::SystemTime;

/// Relies on `SystemTime::duration_since`: the time elapsed since `earlier`,
/// or an error where `earlier` is later.
pub assume_specification[ std::time::SystemTime::duration_since ](
    t: &std::time::SystemTime,
    earlier: std::time::SystemTime,
) -> Result<core::time::Duration, std::time::SystemTimeError>;

/// Relies on `Duration::as_millis`: the whole milliseconds of the duration.
pub assume_specification[ core::time::Duration::as_millis ](d: &core::time::Duration) -> u128;

/// Relies on `std::time::UNIX_EPOCH`: midnight UTC, 1 January 1970.
#[verifier::external_body]
fn unix_epoch() -> std::time::SystemTime {
    std::time::UNIX_EPOCH
}

/// The milliseconds since the Unix epoch, or `None` where the clock stands
/// before it.
pub fn timestamp() -> Option<u128> {
    let now = std::time::SystemTime::now();
    match now.duration_since(unix_epoch()) {
        Ok(d) => Some(d.as_millis()),
        Err(_) => None,
    }
}

/// What `sanitize_filename::sanitize` returns for a name: it depends on the
/// name alone.
pub uninterp spec fn sanitized(s: Seq<char>) -> Seq<char>;

/// Relies on `sanitize_filename::sanitize`: the name with the characters and
/// names that file systems refuse taken out.
#[verifier::external_body]
fn sanitize_name(s: &str) -> (r: String)
    ensures
        r@ == sanitized(s@),
{
    sanitize_filename::sanitize(s)
}

/// The file name for a deck made at `millis`, whose safe name is `safe_name`.
pub open spec fn file_name_spec(millis: nat, safe_name: Seq<char>) -> Seq<char> {
    decimal(millis) + seq!['_'] + safe_name + seq!['.', 'a', 'p', 'k', 'g']
}

/// The file name for a deck made at `millis`, whose name, once made safe
/// for a file system, is `safe_name`.
pub fn deck_file_name(millis: u128, safe_name: &str) -> (r: String)
    ensures
        r@ == file_name_spec(millis as nat, safe_name@),
{
    let mut r = decimal_string(millis);
    r.append("_");
    r.append(safe_name);
    r.append(".apkg");
    proof {
        reveal_strlit("_");
        reveal_strlit(".apkg");
    }
    assert(r@ =~= file_name_spec(millis as nat, safe_name@));
    r
}

/// The file name for a new package of the named deck, made now; `None`
/// where the clock stands before the Unix epoch.
pub fn make_deck_name(deck_name: &str) -> (r: Option<String>)
    ensures
        r matches Some(n) ==> exists|t: u128| n@ == file_name_spec(t as nat, sanitized(deck_name@)),
{
    match timestamp() {
        Some(t) => {
            let safe = sanitize_name(deck_name);
            Some(deck_file_name(t, safe.as_str()))
        },
        None => None,
    }
}

} // verus!

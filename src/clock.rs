use vstd::prelude::*;

verus! {

/// The text `YYYY-MM-DD HH:MM:SS` that chrono gives for `secs` seconds after the epoch, in UTC.
pub uninterp spec fn stamp_text(secs: i64) -> Seq<char>;

/// The text `YYYY-MM-DD` that chrono gives for the UTC day holding `secs` seconds after the epoch.
pub uninterp spec fn date_text(secs: i64) -> Seq<char>;

/// The English phrase of at most three units that timeago gives for a span of `secs` seconds.
pub uninterp spec fn humanized(secs: u64) -> Seq<char>;

/// Relies on chrono's `Utc::now` and `DateTime::timestamp`: the current time, as whole
/// seconds since the epoch. Nothing is known of the value.
#[verifier::external_body]
pub(crate) fn now_secs() -> (r: i64) {
    chrono::Utc::now().timestamp()
}

/// Relies on chrono's `DateTime::from_timestamp` and `format("%Y-%m-%d %H:%M:%S")`: the result
/// depends on `secs` alone (empty outside chrono's range).
#[verifier::external_body]
pub(crate) fn format_stamp(secs: i64) -> (r: String)
    ensures
        r@ == stamp_text(secs),
{
    match chrono::DateTime::from_timestamp(secs, 0) {
        Some(d) => d.format("%Y-%m-%d %H:%M:%S").to_string(),
        None => String::new(),
    }
}

/// Relies on chrono's `DateTime::from_timestamp` and `format("%Y-%m-%d")`: the result
/// depends on `secs` alone (empty outside chrono's range).
#[verifier::external_body]
pub(crate) fn format_date(secs: i64) -> (r: String)
    ensures
        r@ == date_text(secs),
{
    match chrono::DateTime::from_timestamp(secs, 0) {
        Some(d) => d.format("%Y-%m-%d").to_string(),
        None => String::new(),
    }
}

/// Relies on timeago's `Formatter::convert`, set to three units and no "ago" word: the
/// result depends on `secs` alone.
#[verifier::external_body]
pub(crate) fn humanize(secs: u64) -> (r: String)
    ensures
        r@ == humanized(secs),
{
    let mut f = timeago::Formatter::new();
    f.num_items(3);
    f.ago("");
    f.convert(std::time::Duration::from_secs(secs))
}

} // verus!

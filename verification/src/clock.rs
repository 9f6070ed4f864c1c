//! The local wall-clock time, as used in backup folder names.
use vstd::prelude::*;
use crate::paths::BACKUP_STAMP_FORMAT;

verus! {

/// An ASCII decimal digit.
pub open spec fn is_digit(c: char) -> bool {
    '0' <= c && c <= '9'
}

/// The shape of a local time formatted with [`BACKUP_STAMP_FORMAT`]
/// (`%Y%m%d-%H%M%S`): the year, then month, day, `-`, hour, minute and second
/// as two digits each. The year is four digits for years 0 to 9999 (so the
/// whole stamp is 15 characters), and a `+` or `-` sign followed by at least
/// four digits otherwise.
pub open spec fn is_backup_stamp(s: Seq<char>) -> bool {
    &&& s.len() >= 15
    &&& s[s.len() - 7] == '-'
    &&& is_digit(s[0]) || s[0] == '+' || s[0] == '-'
    &&& is_digit(s[0]) ==> s.len() == 15
    &&& forall|i: int| 1 <= i < s.len() && i != s.len() - 7 ==> is_digit(#[trigger] s[i])
}

/// A reading of the local clock, formatted for a backup folder's name. Only
/// [`backup_timestamp`] makes one, so a value of this type is always what the
/// clock gave.
pub struct ClockReading {
    text: String,
}

impl View for ClockReading {
    type V = Seq<char>;

    closed spec fn view(&self) -> Seq<char> {
        self.text@
    }
}

impl ClockReading {
    /// The formatted time.
    pub fn as_str(&self) -> (r: &str)
        ensures
            r@ == self@,
    {
        self.text.as_str()
    }
}

/// The current local time formatted with `pattern`, which must be
/// [`BACKUP_STAMP_FORMAT`].
///
/// Trusted: calls `std::time::SystemTime::now()`, converts it with chrono's
/// `From<SystemTime> for DateTime<Local>`, and formats the result with chrono's
/// `format(pattern).to_string()`. The value depends on the clock and the time
/// zone, so only the shape every outcome has is stated: chrono writes `%Y` as
/// four digits for years 0..=9999 and as a sign and at least four digits
/// otherwise, and `%m`, `%d`, `%H`, `%M`, `%S` as two digits each; which digits
/// come back is left unsaid. A clock set before 1970 is converted without
/// panicking. Three panics remain inside chrono, all set off by the machine's
/// clock or time-zone setup: when the system time lies beyond the years chrono
/// can represent (about 262,000 years from now); on Unix, when chrono cannot
/// select a local time type for the current time zone ("unable to select local
/// time type"); and on Windows, when reading the time-zone information for the
/// year (`GetTimeZoneInformationForYear`) fails.
#[verifier::external_body]
pub(crate) fn backup_timestamp(pattern: &str) -> (r: ClockReading)
    requires
        pattern@ == BACKUP_STAMP_FORMAT@,
    ensures
        is_backup_stamp(r@),
{
    ClockReading {
        text: chrono::DateTime::<chrono::Local>::from(std::time::SystemTime::now()).format(pattern).to_string(),
    }
}

} // verus!

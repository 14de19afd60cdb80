//! Where the log goes, and whether an earlier default log is set aside first.

use vstd::prelude::*;

verus! {

/// The log file used when none is named.
pub open spec fn default_log_spec() -> Seq<char> {
    "ghostsync_log.txt"@
}

/// The name an earlier default log is renamed to, from a timestamp.
pub open spec fn backup_name_spec(stamp: Seq<char>) -> Seq<char> {
    "ghostsync_log_backup_"@ + stamp + ".txt"@
}

/// The path of the default log file.
pub fn default_log_path() -> (r: String)
    ensures
        r@ == default_log_spec(),
{
    String::from_str("ghostsync_log.txt")
}

/// The backup name for an earlier default log, given a timestamp text.
pub fn backup_name(stamp: &str) -> (r: String)
    ensures
        r@ == backup_name_spec(stamp@),
{
    let mut s = String::from_str("ghostsync_log_backup_");
    s.append(stamp);
    s.append(".txt");
    s
}

/// What to do with log files before a run starts.
pub struct LogPlan {
    /// Where to rename the existing default log, if it is to be kept.
    pub backup_to: Option<String>,
    /// The file the run logs to.
    pub log_path: String,
}

/// Plans the log files: an existing default log is renamed aside when a
/// backup is asked for, and the run logs to the named file or the default.
pub fn plan_log(
    explicit: Option<String>,
    default_exists: bool,
    backup_requested: bool,
    stamp: &str,
) -> (r: LogPlan)
    ensures
        r.backup_to is Some <==> (default_exists && backup_requested),
        r.backup_to is Some ==> r.backup_to->0@ == backup_name_spec(stamp@),
        explicit is Some ==> r.log_path@ == explicit->0@,
        explicit is None ==> r.log_path@ == default_log_spec(),
{
    let backup_to = if default_exists && backup_requested {
        Some(backup_name(stamp))
    } else {
        None
    };
    let log_path = match explicit {
        Some(p) => p,
        None => default_log_path(),
    };
    LogPlan { backup_to, log_path }
}

} // verus!

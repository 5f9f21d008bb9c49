//! The keys under which the answers of the statistics routes are cached, and
//! how long they stay.

use crate::text::{decimal_i64, decimal_of, join2, join3};
use vstd::prelude::*;

verus! {

/// Seconds for which statistics over all requests stay cached.
pub const STATS_TTL: u64 = 10800;

/// Seconds for which the statistics of an organization stay cached.
pub const ORGANIZATION_TTL: u64 = 300;

/// The key of the requests for builds of a server type, by version.
pub fn requests_by_type_key(server_type: &str) -> (r: String)
    ensures
        r@ == "requests::types::"@ + server_type@,
{
    join2("requests::types::", server_type)
}

/// The key of the requests for builds of a server type in the month `span`,
/// by day and version.
pub fn requests_by_type_history_key(server_type: &str, span: &str) -> (r: String)
    ensures
        r@ == "requests::types::"@ + server_type@ + "::history::"@ + span@,
{
    join3("requests::types::", server_type, "::history::").concat(span)
}

/// The key of the requests for builds of a version, by server type.
pub fn requests_by_version_key(version: &str) -> (r: String)
    ensures
        r@ == "requests::versions::"@ + version@,
{
    join2("requests::versions::", version)
}

/// The key of the requests for builds of a version in the month `span`, by
/// server type and day.
pub fn requests_by_version_history_key(version: &str, span: &str) -> (r: String)
    ensures
        r@ == "requests::versions::"@ + version@ + "::history::"@ + span@,
{
    join3("requests::versions::", version, "::history::").concat(span)
}

/// The key of the lookups of builds of a server type, by version.
pub fn lookups_by_type_key(server_type: &str) -> (r: String)
    ensures
        r@ == "lookups::versions::"@ + server_type@,
{
    join2("lookups::versions::", server_type)
}

/// The key of the lookups of builds of any server type in the month `span`,
/// by version and day.
pub fn lookups_history_key(span: &str) -> (r: String)
    ensures
        r@ == "lookups::versions::all::history::"@ + span@,
{
    join2("lookups::versions::all::history::", span)
}

/// The key of what an organization is shown of its own requests.
pub fn organization_stats_key(id: i32) -> (r: String)
    ensures
        r@ == "organization::stats::"@ + decimal_of(id as int),
{
    let number = decimal_i64(id as i64);
    join2("organization::stats::", number.as_str())
}

/// The key of what the API answers about an organization.
pub fn organization_key(id: i32) -> (r: String)
    ensures
        r@ == "organization::"@ + decimal_of(id as int) + "::stats"@,
{
    let number = decimal_i64(id as i64);
    join3("organization::", number.as_str(), "::stats")
}

/// The field of a build that names its version in lookups: the version of
/// the project for server types that are identified by their project, the
/// version of the game for the others.
pub fn version_field(project_as_identifier: bool) -> (r: &'static str)
    ensures
        r@ == if project_as_identifier {
            "projectVersionId"@
        } else {
            "versionId"@
        },
{
    if project_as_identifier {
        "projectVersionId"
    } else {
        "versionId"
    }
}

} // verus!

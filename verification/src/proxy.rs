//! Redirects and downloads that the API passes on to another server.

use crate::text::{join3, remove_all, same_text, without};
use vstd::prelude::*;

verus! {

/// Status of a response to a download that could not be served.
pub const NOT_FOUND: u16 = 404;

/// Why a download could not be served.
#[derive(Clone, Copy, Debug, PartialEq, Eq, Structural)]
pub enum DownloadFailure {
    /// No server is known for the project.
    UnknownProject,
    /// The server of the project could not be reached.
    Unreachable,
    /// The server of the project has no such build.
    Missing,
}

impl DownloadFailure {
    /// The body of the response.
    pub fn message(self) -> (r: &'static str)
        ensures
            r@ == match self {
                DownloadFailure::UnknownProject => "project not supported"@,
                DownloadFailure::Unreachable => "error fetching build"@,
                DownloadFailure::Missing => "build not found"@,
            },
    {
        match self {
            DownloadFailure::UnknownProject => "project not supported",
            DownloadFailure::Unreachable => "error fetching build",
            DownloadFailure::Missing => "build not found",
        }
    }
}

/// The address under which the server of `project` lists its loaders, if the
/// project has one.
pub open spec fn loaders_of(project: Seq<char>) -> Option<Seq<char>> {
    if project == "fabric"@ {
        Some("https://meta.fabricmc.net/v2/versions/loader/"@)
    } else if project == "legacy-fabric"@ {
        Some("https://meta.legacyfabric.net/v2/versions/loader/"@)
    } else {
        None
    }
}

/// The address of the server jar of a loader: under the loaders of the
/// project, the version of the game, the version of the loader and the
/// version of the installer without `.jar`, then `/server/jar`.
pub open spec fn jar_address(
    loaders: Seq<char>,
    version: Seq<char>,
    project_version: Seq<char>,
    installer_version: Seq<char>,
) -> Seq<char> {
    loaders + version + "/"@ + project_version + "/"@ + without(installer_version, ".jar"@)
        + "/server/jar"@
}

/// The address that a download is fetched from, or the reason why there is
/// none: only the projects `fabric` and `legacy-fabric` have a server.
pub fn download_url(
    project: &str,
    version: &str,
    project_version: &str,
    installer_version: &str,
) -> (r: Result<String, DownloadFailure>)
    ensures
        match loaders_of(project@) {
            Some(loaders) => r is Ok && r->Ok_0@ == jar_address(
                loaders,
                version@,
                project_version@,
                installer_version@,
            ),
            None => r == Err::<String, DownloadFailure>(DownloadFailure::UnknownProject),
        },
{
    let loaders: &str = if same_text(project, "fabric") {
        "https://meta.fabricmc.net/v2/versions/loader/"
    } else if same_text(project, "legacy-fabric") {
        "https://meta.legacyfabric.net/v2/versions/loader/"
    } else {
        return Err(DownloadFailure::UnknownProject);
    };
    let installer = remove_all(installer_version, ".jar");
    Ok(
        join3(loaders, version, "/").concat(project_version).concat("/").concat(
            installer.as_str(),
        ).concat("/server/jar"),
    )
}

/// Whether the answer of the other server is passed on: only a success is.
pub fn is_passed_on(status: u16) -> (r: bool)
    ensures
        r == (200 <= status < 300),
{
    200 <= status && status < 300
}

/// The address of the icon of a server type, given the name of the type in
/// lower case.
pub fn icon_location(storage: &str, name: &str) -> (r: String)
    ensures
        r@ == storage@ + "/icons/"@ + name@ + ".png"@,
{
    join3(storage, "/icons/", name).concat(".png")
}

} // verus!

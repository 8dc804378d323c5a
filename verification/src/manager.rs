//! Where the provisioned server binary and its state live: the platform
//! identifier, the executable's name, and the install-directory layout.
//!
//! The application layer supplies the platform facts (operating system and
//! architecture names, the tools root) and performs the downloads; the
//! layout itself is decided here.

use vstd::prelude::*;

use vstd::string::StringExecFns;

use crate::strutil::chars_eq;
use crate::strutil::chars_of;
use crate::strutil::string_from_chars;
use crate::strutil::trim_chars;
use crate::strutil::trim_spec;
use crate::tools::join_path;

verus! {

/// The platform identifier a given operating system and architecture select.
pub open spec fn rid_spec(os: Seq<char>, arch: Seq<char>) -> Seq<char> {
    if os == "windows"@ {
        if arch == "aarch64"@ {
            "win-arm64"@
        } else {
            "win-x64"@
        }
    } else if os == "macos"@ {
        if arch == "aarch64"@ {
            "osx-arm64"@
        } else {
            "osx-x64"@
        }
    } else if arch == "aarch64"@ {
        "linux-arm64"@
    } else {
        "linux-x64"@
    }
}

/// The platform identifier for the given operating system and architecture
/// names, as the compiler reports them.
pub fn detect_rid(os: &str, arch: &str) -> (r: String)
    ensures
        r@ == rid_spec(os@, arch@),
{
    let osc = chars_of(os);
    let archc = chars_of(arch);
    let arm = chars_of("aarch64");
    if chars_eq(&osc, &chars_of("windows")) {
        if chars_eq(&archc, &arm) {
            String::from_str("win-arm64")
        } else {
            String::from_str("win-x64")
        }
    } else if chars_eq(&osc, &chars_of("macos")) {
        if chars_eq(&archc, &arm) {
            String::from_str("osx-arm64")
        } else {
            String::from_str("osx-x64")
        }
    } else if chars_eq(&archc, &arm) {
        String::from_str("linux-arm64")
    } else {
        String::from_str("linux-x64")
    }
}

/// The server executable's file name on the given operating system.
pub fn executable_name(os: &str) -> (r: String)
    ensures
        r@ == if os@ == "windows"@ {
            "server.exe"@
        } else {
            "server"@
        },
{
    let osc = chars_of(os);
    if chars_eq(&osc, &chars_of("windows")) {
        String::from_str("server.exe")
    } else {
        String::from_str("server")
    }
}

/// The install directory: `<tools root>/csharp-lsp/<rid>`.
pub fn install_dir(tools_root: &str, rid: &str) -> (r: String)
    ensures
        r@ == tools_root@ + seq!['/'] + "csharp-lsp"@ + seq!['/'] + rid@,
{
    let base = join_path(tools_root, "csharp-lsp");
    join_path(base.as_str(), rid)
}

/// The provisioned binary: the executable inside the install directory.
pub fn binary_path(install_dir: &str, executable: &str) -> (r: String)
    ensures
        r@ == install_dir@ + seq!['/'] + executable@,
{
    join_path(install_dir, executable)
}

/// The installed-version marker file inside the install directory.
pub fn version_path(install_dir: &str) -> (r: String)
    ensures
        r@ == install_dir@ + seq!['/'] + "VERSION"@,
{
    join_path(install_dir, "VERSION")
}

/// The version a marker file's text records: its trimmed content, when that
/// is not blank.
pub fn clean_version(raw: &str) -> (r: Option<String>)
    ensures
        match r {
            Option::Some(v) => trim_spec(raw@).len() > 0 && v@ == trim_spec(raw@),
            Option::None => trim_spec(raw@).len() == 0,
        },
{
    let rc = chars_of(raw);
    let trimmed = trim_chars(&rc);
    if trimmed.len() > 0 {
        Option::Some(string_from_chars(&trimmed))
    } else {
        Option::None
    }
}

} // verus!

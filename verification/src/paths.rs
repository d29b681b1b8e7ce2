//! Mapping the manifest's virtual paths to real locations under a wine
//! prefix. Looking the directories up — configuration, environment, whether
//! they exist on disk — is the caller's I/O; given those as plain strings,
//! every path built here is exact.

use vstd::prelude::*;
use crate::strutil::{has_prefix, str_starts_with};

verus! {

/// The view of an optional string.
pub open spec fn opt_view(o: Option<&str>) -> Option<Seq<char>> {
    match o {
        Some(s) => Some(s@),
        None => None,
    }
}

/// Where a virtual path is realized, the two candidate roots given as far
/// as they are known: files of the vendor's launcher (its runtime bundle
/// and its executable) live under the launcher directory's download tree,
/// everything else directly under the game install directory. A missing
/// root makes realization impossible.
pub open spec fn spec_realize_path(
    input: Seq<char>,
    launcher: Option<Seq<char>>,
    game: Option<Seq<char>>,
) -> Option<Seq<char>> {
    if has_prefix(input, "/Tools/CEF3_1"@) || has_prefix(input, "/Tools/Launcher.exe"@) {
        match launcher {
            Some(d) => Some(d + "/Downloaded/Public/"@ + input.drop_first()),
            None => None,
        }
    } else {
        match game {
            Some(d) => Some(d + "/"@ + input.drop_first()),
            None => None,
        }
    }
}

/// Realizes a virtual path against the two roots the caller located.
pub fn realize_path(input: &str, launcher_dir: Option<&str>, game_dir: Option<&str>) -> (r: Option<
    String,
>)
    requires
        input@.len() >= 1,
    ensures
        match spec_realize_path(input@, opt_view(launcher_dir), opt_view(game_dir)) {
            Some(t) => r matches Some(s) && s@ == t,
            None => r is None,
        },
{
    let n = input.unicode_len();
    let rest = input.substring_char(1, n);
    proof {
        assert(rest@ =~= input@.drop_first());
    }
    if str_starts_with(input, "/Tools/CEF3_1") || str_starts_with(input, "/Tools/Launcher.exe") {
        match launcher_dir {
            Some(d) => {
                let mut out = d.to_owned();
                out.append("/Downloaded/Public/");
                out.append(rest);
                Some(out)
            },
            None => None,
        }
    } else {
        match game_dir {
            Some(d) => {
                let mut out = d.to_owned();
                out.append("/");
                out.append(rest);
                Some(out)
            },
            None => None,
        }
    }
}

/// The wine prefix to use: the configured one first, then the environment's,
/// and failing both, `.wine` under the home directory.
pub fn wineprefix(config_value: Option<String>, env_value: Option<String>, home: &str) -> (r:
    String)
    ensures
        r@ == match config_value {
            Some(c) => c@,
            None => match env_value {
                Some(e) => e@,
                None => home@ + "/.wine"@,
            },
        },
{
    match config_value {
        Some(c) => c,
        None => match env_value {
            Some(e) => e,
            None => {
                let mut out = home.to_owned();
                out.append("/.wine");
                out
            },
        },
    }
}

/// The vendor launcher's directory under a wine prefix, for a user: where
/// the launcher keeps its downloads and its logs.
pub fn launcher_dir(wineprefix: &str, username: &str) -> (r: String)
    ensures
        r@ == wineprefix@ + "/drive_c/users/"@ + username@
            + "/Local Settings/Application Data/Warframe"@,
{
    let mut out = wineprefix.to_owned();
    out.append("/drive_c/users/");
    out.append(username);
    out.append("/Local Settings/Application Data/Warframe");
    out
}

/// The game's install directory under a wine prefix: where the game
/// executable and its content live.
pub fn game_install_dir(wineprefix: &str) -> (r: String)
    ensures
        r@ == wineprefix@ + "/drive_c/Program Files/Warframe/Downloaded/Public"@,
{
    let mut out = wineprefix.to_owned();
    out.append("/drive_c/Program Files/Warframe/Downloaded/Public");
    out
}

/// The vendor launcher's executable under its directory.
pub fn launcher_exe(launcher_dir: &str) -> (r: String)
    ensures
        r@ == launcher_dir@ + "/Downloaded/Public/Tools/Launcher.exe"@,
{
    let mut out = launcher_dir.to_owned();
    out.append("/Downloaded/Public/Tools/Launcher.exe");
    out
}

} // verus!

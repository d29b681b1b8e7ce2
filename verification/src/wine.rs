//! Installed wine builds as records: which source a build came from, whether
//! its version string names a staging build, and the reduction of a wine
//! binary's version report to the version proper. Finding the builds and
//! running the binaries is the caller's I/O.

use vstd::prelude::*;
use crate::strutil::{has_substr, str_has_substr, is_space_char, is_space};

verus! {

/// Where a wine build was found.
#[derive(Debug, Clone, Copy, PartialEq, Eq, PartialOrd, Structural)]
pub enum WineSource {
    /// The system-wide installation.
    System,
    /// A build managed by PlayOnLinux.
    PlayOnLinux,
}

/// One installed wine build.
#[derive(Debug, Clone, PartialEq, Eq)]
pub struct WineVersion {
    /// The version as the binary reports it.
    pub version: String,
    /// Whether the version string names a staging build.
    pub is_staging: bool,
    /// Where the build was found.
    pub source: WineSource,
    /// The build's root directory.
    pub path: String,
}

impl WineVersion {
    /// Builds the record, reading off from the version string whether this
    /// is a staging build.
    pub fn new(version: String, source: WineSource, path: String) -> (r: Self)
        ensures
            r.version == version,
            r.source == source,
            r.path == path,
            r.is_staging == has_substr(version@, " (Staging)"@),
    {
        let is_staging = str_has_substr(version.as_str(), " (Staging)");
        WineVersion { version, is_staging, source, path }
    }
}

/// `s` with its trailing white space removed.
pub open spec fn strip_trailing_spaces(s: Seq<char>) -> Seq<char>
    decreases s.len(),
{
    if s.len() > 0 && is_space_char(s.last()) {
        strip_trailing_spaces(s.drop_last())
    } else {
        s
    }
}

/// Position where `s`'s trailing white space begins.
fn trimmed_end(s: &str) -> (r: usize)
    ensures
        r <= s@.len(),
        s@.subrange(0, r as int) == strip_trailing_spaces(s@),
{
    let n = s.unicode_len();
    proof {
        assert(s@.subrange(0, n as int) =~= s@);
    }
    let mut e: usize = n;
    while e > 0
        invariant
            e <= n,
            n == s@.len(),
            strip_trailing_spaces(s@) == strip_trailing_spaces(s@.subrange(0, e as int)),
        decreases e,
    {
        proof {
            assert(s@.subrange(0, e as int).last() == s@[e - 1]);
        }
        if !is_space(s.get_char(e - 1)) {
            return e;
        }
        proof {
            assert(s@.subrange(0, e as int).drop_last() =~= s@.subrange(0, e as int - 1));
        }
        e -= 1;
    }
    proof {
        assert(s@.subrange(0, 0) =~= Seq::<char>::empty());
    }
    0
}

/// Reduces a wine binary's version report to the version proper: trailing
/// white space stripped, then the five-character `wine-` tag dropped.
/// Output too short to carry the tag holds no version.
pub fn parse_wine_version(output: &str) -> (r: Option<String>)
    ensures
        ({
            let t = strip_trailing_spaces(output@);
            match r {
                Some(v) => t.len() >= 5 && v@ == t.skip(5),
                None => t.len() < 5,
            }
        }),
{
    let e = trimmed_end(output);
    if e < 5 {
        return None;
    }
    let v = output.substring_char(5, e).to_owned();
    proof {
        assert(output@.subrange(0, e as int).skip(5) =~= output@.subrange(5, e as int));
    }
    Some(v)
}

} // verus!

//! The command line the game is launched with: the binary's name and the
//! fixed flag strings, derived from plain configuration values. Building
//! and spawning the real process is the caller's.

use vstd::prelude::*;
use crate::digits::{dec_str, u64_to_string};

verus! {

/// The game binary's file name for the chosen word size.
pub fn game_binary_name(use_64bit: bool) -> (r: &'static str)
    ensures
        use_64bit ==> r@ == "Warframe.x64.exe"@,
        !use_64bit ==> r@ == "Warframe.exe"@,
{
    if use_64bit {
        "Warframe.x64.exe"
    } else {
        "Warframe.exe"
    }
}

/// The plain values that shape the game's command line.
pub struct LaunchSettings {
    /// Tag the log file with this timestamp, or use the fixed name.
    pub log_stamp: Option<u64>,
    /// Ask for the DirectX 10 renderer.
    pub dx10: bool,
    /// Ask for the DirectX 11 renderer.
    pub dx11: bool,
    /// The game's language code.
    pub language: String,
}

/// The log-file flag: stamped when a timestamp is given, fixed otherwise.
pub open spec fn spec_log_arg(stamp: Option<u64>) -> Seq<char> {
    match stamp {
        Some(t) => "-log:/wfupdate-"@ + dec_str(t as int) + ".log"@,
        None => "-log:/wfupdate.log"@,
    }
}

/// The fixed flags every game invocation carries, in order: the worker and
/// cluster flags, the log file, the two renderer switches, the language.
pub fn base_game_args(settings: &LaunchSettings) -> (r: Vec<String>)
    ensures
        r@.len() == 6,
        r@[0]@ == "-threadedworker:1"@,
        r@[1]@ == "-cluster:public"@,
        r@[2]@ == spec_log_arg(settings.log_stamp),
        r@[3]@ == (if settings.dx10 {
            "-dx10:1"@
        } else {
            "-dx10:0"@
        }),
        r@[4]@ == (if settings.dx11 {
            "-dx11:1"@
        } else {
            "-dx11:0"@
        }),
        r@[5]@ == "-language:"@ + settings.language@,
{
    let mut args: Vec<String> = Vec::new();
    args.push("-threadedworker:1".to_owned());
    args.push("-cluster:public".to_owned());
    let log_arg = match &settings.log_stamp {
        Some(t) => {
            let mut s = "-log:/wfupdate-".to_owned();
            let num = u64_to_string(*t);
            s.append(num.as_str());
            s.append(".log");
            s
        },
        None => "-log:/wfupdate.log".to_owned(),
    };
    args.push(log_arg);
    args.push(
        if settings.dx10 {
            "-dx10:1".to_owned()
        } else {
            "-dx10:0".to_owned()
        },
    );
    args.push(
        if settings.dx11 {
            "-dx11:1".to_owned()
        } else {
            "-dx11:0".to_owned()
        },
    );
    let mut lang = "-language:".to_owned();
    lang.append(settings.language.as_str());
    args.push(lang);
    args
}

} // verus!

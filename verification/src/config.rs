//! Pure helpers for the tool's configuration keys and values. Reading and
//! writing the configuration file itself is I/O and lives with the caller;
//! this module only interprets the plain strings involved.

use vstd::prelude::*;
use crate::strutil::{find_from, strip_leading, find_char_from, str_eq};

verus! {

/// Splits a human-readable configuration key of the form `section:name`
/// into its section (if any) and name.
///
/// The name is everything after the first `:`, with any further leading
/// colons removed as well; a key without a colon has no section.
pub fn parse_configid(input: &str) -> (r: (Option<String>, String))
    ensures
        match find_from(input@, ':', 0) {
            Some(p) => {
                &&& r.0 matches Some(sec) && sec@ == input@.subrange(0, p)
                &&& r.1@ == strip_leading(input@.subrange(p, input@.len() as int), ':')
            },
            None => r.0 is None && r.1@ == input@,
        },
{
    let n = input.unicode_len();
    match find_char_from(input, ':', 0) {
        Some(p) => {
            let section = input.substring_char(0, p).to_owned();
            let mut j: usize = p;
            while j < n && input.get_char(j) == ':'
                invariant
                    n == input@.len(),
                    p <= j <= n,
                    strip_leading(input@.subrange(p as int, n as int), ':') == strip_leading(
                        input@.subrange(j as int, n as int),
                        ':',
                    ),
                decreases n - j,
            {
                proof {
                    assert(input@.subrange(j as int, n as int).drop_first() =~= input@.subrange(
                        j as int + 1,
                        n as int,
                    ));
                }
                j += 1;
            }
            let name = input.substring_char(j, n).to_owned();
            (Some(section), name)
        },
        None => (None, input.to_owned()),
    }
}

/// Interprets a configuration value as a boolean: only the exact strings
/// `true` and `1` mean true; anything else, or no value at all, means false.
pub fn parse_bool(input: Option<&str>) -> (r: bool)
    ensures
        r == match input {
            Some(v) => v@ == "true"@ || v@ == "1"@,
            None => false,
        },
{
    match input {
        Some(v) => str_eq(v, "true") || str_eq(v, "1"),
        None => false,
    }
}

} // verus!

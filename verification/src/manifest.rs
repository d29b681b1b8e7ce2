//! The remote file manifest: one line per distributable file, ending in a
//! comma and the compressed size in bytes. The file name carries a 32-digit
//! hexadecimal content hash and a fixed compression suffix, which parsing
//! strips to recover the on-disk path. Also the classification of each entry
//! into the small fixed taxonomy that update policy is decided over.

use vstd::prelude::*;
use crate::strutil::{find_from, find_last, find_char_from, find_char_last, match_at, str_eq,
    str_starts_with, str_has_substr, has_prefix, has_substr};
use crate::digits::{is_digit, dec_val, is_hex_digit, decode_hex, encode_hex_upper,
    is_upper_hex_digit, digit_value, hex_digit_value, lemma_dec_val_prefix,
    lemma_encode_decode_hex};

verus! {

/// One entry of the remote manifest.
#[derive(Debug, Clone, PartialEq, Eq)]
pub struct File {
    /// Full path of the compressed object on the content server, with the
    /// embedded content hash and compression suffix.
    pub download_path: String,
    /// Virtual on-disk path: the download path with the hash and suffix
    /// stripped.
    pub disk_path: String,
    /// The 16-byte content hash decoded from the download path.
    pub md5sum: Vec<u8>,
    /// Size in bytes of the compressed object, as declared by the manifest.
    pub size: u64,
}

/// Why a manifest failed to parse.
#[derive(Debug, Clone, Copy, PartialEq, Eq, Structural)]
pub enum ParseError {
    /// A line has no comma, so no size field can be split off.
    MissingDelimiter,
    /// A line's name field does not end in a dot, 32 hexadecimal digits and
    /// the fixed compression suffix.
    InvalidHash,
    /// A line's size field is not a decimal number that fits 64 bits.
    InvalidSize,
}

/// The fixed compression suffix every manifest name carries.
pub open spec fn lzma_suffix() -> Seq<char> {
    seq!['.', 'l', 'z', 'm', 'a']
}

/// One trailing carriage return removed, as line splitting does.
pub open spec fn strip_cr(l: Seq<char>) -> Seq<char> {
    if l.len() > 0 && l.last() == '\r' {
        l.drop_last()
    } else {
        l
    }
}

/// The lines of `s` from position `i` on: split at every newline, one
/// trailing carriage return stripped from each line, no final empty line.
pub open spec fn split_lines_from(s: Seq<char>, i: int) -> Seq<Seq<char>>
    decreases s.len() - i,
    via split_lines_from_decreases
{
    if !(0 <= i < s.len()) {
        seq![]
    } else {
        match find_from(s, '\n', i) {
            Some(p) => seq![strip_cr(s.subrange(i, p))] + split_lines_from(s, p + 1),
            None => seq![strip_cr(s.subrange(i, s.len() as int))],
        }
    }
}

#[via_fn]
proof fn split_lines_from_decreases(s: Seq<char>, i: int) {
    if 0 <= i < s.len() {
        crate::strutil::lemma_find_from_range(s, '\n', i);
    }
}

/// The lines of `s`.
pub open spec fn split_lines(s: Seq<char>) -> Seq<Seq<char>> {
    split_lines_from(s, 0)
}

/// The name field before the last comma at `p` ends in a dot, 32 hexadecimal
/// digits and the fixed compression suffix, with at least one character of
/// path before them.
pub open spec fn hash_structure_ok(l: Seq<char>, p: int) -> bool {
    &&& p >= 38
    &&& l[p - 38] == '.'
    &&& l.subrange(p - 5, p) == lzma_suffix()
    &&& forall|j: int| p - 37 <= j < p - 5 ==> is_hex_digit(#[trigger] l[j])
}

/// The size field after the last comma at `p` is a non-empty string of
/// decimal digits whose value fits an unsigned 64-bit integer.
pub open spec fn size_ok(l: Seq<char>, p: int) -> bool {
    &&& p + 1 < l.len()
    &&& forall|j: int| p + 1 <= j < l.len() ==> is_digit(#[trigger] l[j])
    &&& dec_val(l.subrange(p + 1, l.len() as int)) <= u64::MAX as int
}

/// The error one manifest line produces, or `None` if it is well formed.
/// A name whose structure around the hash is broken counts as a hash error;
/// it is reported before any size error on the same line.
pub open spec fn manifest_line_err(l: Seq<char>) -> Option<ParseError> {
    match find_last(l, ',') {
        None => Some(ParseError::MissingDelimiter),
        Some(p) => if !hash_structure_ok(l, p) {
            Some(ParseError::InvalidHash)
        } else if !size_ok(l, p) {
            Some(ParseError::InvalidSize)
        } else {
            None
        },
    }
}

/// A well-formed manifest line.
pub open spec fn line_wf(l: Seq<char>) -> bool {
    manifest_line_err(l) is None
}

/// `f` is exactly the entry that the well-formed line `l` describes.
pub open spec fn file_matches_line(f: File, l: Seq<char>) -> bool {
    match find_last(l, ',') {
        Some(p) => {
            &&& f.download_path@ == l.subrange(0, p)
            &&& f.disk_path@ == l.subrange(0, p - 38)
            &&& f.md5sum@ == decode_hex(l.subrange(p - 37, p - 5))
            &&& f.size as int == dec_val(l.subrange(p + 1, l.len() as int))
        },
        None => false,
    }
}

/// Parses one manifest line into its entry.
pub fn parse_manifest_line(line: &str) -> (r: Result<File, ParseError>)
    ensures
        match manifest_line_err(line@) {
            Some(e) => r matches Err(e2) && e2 == e,
            None => r matches Ok(f) && file_matches_line(f, line@),
        },
{
    let n = line.unicode_len();
    let p = match find_char_last(line, ',') {
        Some(p) => p,
        None => {
            return Err(ParseError::MissingDelimiter);
        },
    };
    if p < 38 {
        return Err(ParseError::InvalidHash);
    }
    if line.get_char(p - 38) != '.' {
        return Err(ParseError::InvalidHash);
    }
    proof {
        reveal_strlit(".lzma");
        assert(".lzma"@ =~= lzma_suffix());
    }
    if !match_at(line, ".lzma", p - 5) {
        return Err(ParseError::InvalidHash);
    }
    proof {
        assert(line@.subrange(p as int - 5, p as int) == lzma_suffix());
    }

    let ghost h = line@.subrange(p as int - 37, p as int - 5);
    let mut md5: Vec<u8> = Vec::new();
    let mut k: usize = 0;
    proof {
        assert(h.skip(0) =~= h);
    }
    while k < 16
        invariant
            38 <= p < n,
            n == line@.len(),
            find_last(line@, ',') == Some(p as int),
            h == line@.subrange(p as int - 37, p as int - 5),
            h.len() == 32,
            k <= 16,
            md5@.len() == k,
            forall|j: int| 0 <= j < 2 * k ==> is_hex_digit(#[trigger] h[j]),
            decode_hex(h) == md5@ + decode_hex(h.skip(2 * k as int)),
        decreases 16 - k,
    {
        let c1 = line.get_char(p - 37 + 2 * k);
        let c2 = line.get_char(p - 36 + 2 * k);
        proof {
            assert(h[2 * k as int] == line@[p - 37 + 2 * k]);
            assert(h[2 * k as int + 1] == line@[p - 36 + 2 * k]);
        }
        let v1 = match hex_digit_value(c1) {
            Some(v) => v,
            None => {
                proof {
                    assert(!is_hex_digit(line@[p - 37 + 2 * k]));
                    assert(!hash_structure_ok(line@, p as int));
                }
                return Err(ParseError::InvalidHash);
            },
        };
        let v2 = match hex_digit_value(c2) {
            Some(v) => v,
            None => {
                proof {
                    assert(!is_hex_digit(line@[p - 36 + 2 * k]));
                    assert(!hash_structure_ok(line@, p as int));
                }
                return Err(ParseError::InvalidHash);
            },
        };
        md5.push(v1 * 16 + v2);
        proof {
            let rest = h.skip(2 * k as int);
            assert(rest.len() >= 2);
            assert(rest[0] == h[2 * k as int]);
            assert(rest[1] == h[2 * k as int + 1]);
            assert(rest.subrange(2, rest.len() as int) =~= h.skip(2 * (k + 1) as int));
        }
        k += 1;
    }
    proof {
        assert(h.skip(32) =~= Seq::<char>::empty());
        assert(md5@ =~= decode_hex(h));
        assert(forall|j: int| p - 37 <= j < p - 5 ==> is_hex_digit(#[trigger] line@[j])) by {
            assert(forall|j: int| p - 37 <= j < p - 5 ==> #[trigger] line@[j] == h[j - (p - 37)]);
        }
        assert(hash_structure_ok(line@, p as int));
    }

    if p + 1 >= n {
        return Err(ParseError::InvalidSize);
    }
    let mut size: u64 = 0;
    let mut i: usize = p + 1;
    proof {
        assert(line@.subrange(p as int + 1, p as int + 1) =~= Seq::<char>::empty());
    }
    while i < n
        invariant
            38 <= p < n,
            n == line@.len(),
            p + 1 <= i <= n,
            hash_structure_ok(line@, p as int),
            find_last(line@, ',') == Some(p as int),
            forall|j: int| p + 1 <= j < i ==> is_digit(#[trigger] line@[j]),
            size as int == dec_val(line@.subrange(p as int + 1, i as int)),
        decreases n - i,
    {
        let c = line.get_char(i);
        let d = match digit_value(c) {
            Some(d) => d,
            None => {
                return Err(ParseError::InvalidSize);
            },
        };
        proof {
            assert(line@.subrange(p as int + 1, i as int + 1).drop_last() =~= line@.subrange(
                p as int + 1,
                i as int,
            ));
            assert(line@.subrange(p as int + 1, i as int + 1).last() == line@[i as int]);
        }
        let next = match size.checked_mul(10) {
            Some(x) => match x.checked_add(d as u64) {
                Some(y) => y,
                None => {
                    proof {
                        lemma_size_overflow(line@, p as int, i as int);
                    }
                    return Err(ParseError::InvalidSize);
                },
            },
            None => {
                proof {
                    lemma_size_overflow(line@, p as int, i as int);
                }
                return Err(ParseError::InvalidSize);
            },
        };
        size = next;
        i += 1;
    }
    proof {
        assert(size_ok(line@, p as int));
    }

    let download_path = line.substring_char(0, p).to_owned();
    let disk_path = line.substring_char(0, p - 38).to_owned();
    Ok(File { download_path, disk_path, md5sum: md5, size })
}

/// Parses a whole manifest into its entries, in line order.
///
/// Parsing is all or nothing: the first malformed line fails the whole call
/// with its error, and no partial list is returned.
pub fn parse_file_list(list: String) -> (r: Result<Vec<File>, ParseError>)
    ensures
        match r {
            Ok(files) => {
                &&& files@.len() == split_lines(list@).len()
                &&& forall|i: int|
                    0 <= i < files@.len() ==> line_wf(#[trigger] split_lines(list@)[i])
                        && file_matches_line(files@[i], split_lines(list@)[i])
            },
            Err(e) => exists|i: int|
                {
                    &&& 0 <= i < split_lines(list@).len()
                    &&& manifest_line_err(#[trigger] split_lines(list@)[i]) == Some(e)
                    &&& forall|j: int| 0 <= j < i ==> line_wf(split_lines(list@)[j])
                },
        },
{
    let s = list.as_str();
    let n = s.unicode_len();
    let mut out: Vec<File> = Vec::new();
    let mut start: usize = 0;
    proof {
        assert(split_lines(list@).skip(0) =~= split_lines(list@));
    }
    while start < n
        invariant
            s@ == list@,
            n == s@.len(),
            start <= n,
            out@.len() + split_lines_from(list@, start as int).len() == split_lines(list@).len(),
            split_lines_from(list@, start as int) == split_lines(list@).skip(out@.len() as int),
            forall|i: int|
                0 <= i < out@.len() ==> line_wf(#[trigger] split_lines(list@)[i])
                    && file_matches_line(out@[i], split_lines(list@)[i]),
        decreases n - start,
    {
        let ghost k = out@.len() as int;
        let line_end = match find_char_from(s, '\n', start) {
            Some(p) => p,
            None => n,
        };
        let next = if line_end < n {
            line_end + 1
        } else {
            n
        };
        let content_end = if line_end > start && s.get_char(line_end - 1) == '\r' {
            line_end - 1
        } else {
            line_end
        };
        let linestr = s.substring_char(start, content_end);
        proof {
            let whole = list@.subrange(start as int, line_end as int);
            if line_end > start && list@[line_end - 1] == '\r' {
                assert(whole.last() == list@[line_end - 1]);
                assert(whole.drop_last() =~= list@.subrange(start as int, line_end as int - 1));
            }
            assert(linestr@ == strip_cr(whole));
            assert(split_lines_from(list@, start as int) =~= seq![linestr@] + split_lines_from(
                list@,
                next as int,
            ));
            let all = split_lines(list@);
            let rest = split_lines_from(list@, next as int);
            assert(all.skip(k)[0] == all[k]);
            assert((seq![linestr@] + rest)[0] == linestr@);
            assert(all[k] == linestr@);
        }
        match parse_manifest_line(linestr) {
            Ok(f) => {
                out.push(f);
            },
            Err(e) => {
                proof {
                    assert(manifest_line_err(split_lines(list@)[k]) == Some(e));
                }
                return Err(e);
            },
        }
        proof {
            let all = split_lines(list@);
            let rest = split_lines_from(list@, next as int);
            assert(all.skip(k).len() == all.len() - k);
            assert(rest =~= all.skip(k + 1)) by {
                assert(forall|i: int| 0 <= i < rest.len() ==> #[trigger] rest[i] == all[k + 1 + i])
                    by {
                    assert(forall|i: int|
                        0 <= i < rest.len() ==> (seq![linestr@] + rest)[i + 1]
                            == #[trigger] rest.index(i));
                    assert(forall|i: int|
                        0 <= i < rest.len() ==> #[trigger] all.skip(k)[i + 1] == all[k + 1 + i]);
                }
                assert(forall|i: int|
                    0 <= i < rest.len() ==> #[trigger] all.skip(k + 1)[i] == all[k + 1 + i]);
            }
        }
        start = next;
    }
    Ok(out)
}

/// The taxonomy a manifest entry is classified into, by its on-disk path.
#[derive(Debug, Clone, Copy, PartialEq, Eq, Structural)]
pub enum FileType {
    /// 32-bit executable, language file or driver redistributable; always
    /// wanted.
    Exe32Bit,
    /// 64-bit executable; wanted only when the game runs in 64-bit mode.
    Exe64Bit,
    /// Very large game content that the updater itself does not manage.
    GameAsset,
    /// File of the vendor's own launcher.
    LauncherAsset,
    /// File needed only by installs from the distribution platform.
    SteamAsset,
    /// A path none of the rules recognize.
    Unknown,
}

/// The classification of an on-disk path: the first matching rule wins, and
/// the rules overlap, so their order is part of the meaning.
pub open spec fn spec_categorize(name: Seq<char>) -> FileType {
    if has_prefix(name, "/Tools/CEF3_1"@) || name == "/Tools/Launcher.exe"@ {
        FileType::LauncherAsset
    } else if has_substr(name, "steam_api"@) || has_substr(name, "vdf"@) {
        FileType::SteamAsset
    } else if has_substr(name, "x64"@) {
        FileType::Exe64Bit
    } else if has_substr(name, "x86"@) || name == "/Warframe.exe"@ || has_prefix(name, "/Drivers"@)
        || has_prefix(name, "/Tools"@) {
        FileType::Exe32Bit
    } else if has_prefix(name, "/Cache.Windows"@) || has_prefix(name, "/Lotus"@) {
        FileType::GameAsset
    } else {
        FileType::Unknown
    }
}

/// Classifies a manifest entry by its on-disk path.
pub fn categorize(item: &File) -> (r: FileType)
    ensures
        r == spec_categorize(item.disk_path@),
{
    let name: &str = item.disk_path.as_str();
    if str_starts_with(name, "/Tools/CEF3_1") || str_eq(name, "/Tools/Launcher.exe") {
        FileType::LauncherAsset
    } else if str_has_substr(name, "steam_api") || str_has_substr(name, "vdf") {
        FileType::SteamAsset
    } else if str_has_substr(name, "x64") {
        FileType::Exe64Bit
    } else if str_has_substr(name, "x86") || str_eq(name, "/Warframe.exe") || str_starts_with(
        name,
        "/Drivers",
    ) || str_starts_with(name, "/Tools") {
        FileType::Exe32Bit
    } else if str_starts_with(name, "/Cache.Windows") || str_starts_with(name, "/Lotus") {
        FileType::GameAsset
    } else {
        FileType::Unknown
    }
}

/// Law: classification is order-sensitive. A path carrying the 64-bit
/// marker is classified as a 64-bit executable whenever no earlier rule
/// claims it, whatever later rules (the 32-bit marker, the content
/// prefixes) would also match.
pub proof fn lemma_categorize_priority(name: Seq<char>)
    requires
        has_substr(name, "x64"@),
        !has_prefix(name, "/Tools/CEF3_1"@),
        name != "/Tools/Launcher.exe"@,
        !has_substr(name, "steam_api"@),
        !has_substr(name, "vdf"@),
    ensures
        spec_categorize(name) == FileType::Exe64Bit,
{
}

/// Which classes of entries an update run includes.
pub struct UpdatePolicy {
    /// Include files needed only by distribution-platform installs.
    pub include_steam: bool,
    /// Include 64-bit executables.
    pub include_64bit: bool,
    /// Include the large game content that the updater does not manage.
    pub include_game_assets: bool,
}

/// Whether policy selects an entry of the given class for checking and
/// updating. Executables, launcher files and unrecognized paths are always
/// selected; the rest follow the policy's three switches.
pub open spec fn spec_selected(t: FileType, policy: UpdatePolicy) -> bool {
    match t {
        FileType::Exe32Bit => true,
        FileType::LauncherAsset => true,
        FileType::Unknown => true,
        FileType::SteamAsset => policy.include_steam,
        FileType::Exe64Bit => policy.include_64bit,
        FileType::GameAsset => policy.include_game_assets,
    }
}

/// Applies the update policy to one classified entry.
pub fn asset_selected(t: FileType, policy: &UpdatePolicy) -> (r: bool)
    ensures
        r == spec_selected(t, *policy),
{
    match t {
        FileType::Exe32Bit => true,
        FileType::LauncherAsset => true,
        FileType::Unknown => true,
        FileType::SteamAsset => policy.include_steam,
        FileType::Exe64Bit => policy.include_64bit,
        FileType::GameAsset => policy.include_game_assets,
    }
}

/// The hash segment of a well-formed manifest line.
pub open spec fn hash_segment(l: Seq<char>) -> Seq<char> {
    match find_last(l, ',') {
        Some(p) => l.subrange(p - 37, p - 5),
        None => seq![],
    }
}

/// Law: parsing round-trips. For any well-formed manifest line whose hash
/// digits are upper case, re-deriving the download path from the parsed
/// entry — disk path, dot, upper-case hex hash, fixed suffix — reproduces
/// the line's name field exactly.
pub proof fn lemma_parse_round_trip(f: File, l: Seq<char>)
    requires
        line_wf(l),
        file_matches_line(f, l),
        forall|i: int| 0 <= i < hash_segment(l).len() ==> is_upper_hex_digit(#[trigger] hash_segment(l)[i]),
    ensures
        f.download_path@ == f.disk_path@ + seq!['.'] + encode_hex_upper(f.md5sum@) + lzma_suffix(),
{
    let p = find_last(l, ',')->0;
    let h = l.subrange(p - 37, p - 5);
    assert(h == hash_segment(l));
    assert(h.len() % 2 == 0);
    lemma_encode_decode_hex(h);
    assert(f.download_path@ =~= f.disk_path@ + seq!['.'] + h + lzma_suffix()) by {
        assert(l.subrange(0, p).len() == p);
        assert(forall|i: int| 0 <= i < p ==> #[trigger] l.subrange(0, p)[i] == l[i]);
        assert(forall|i: int| 0 <= i < p - 38 ==> #[trigger] l.subrange(0, p - 38)[i] == l[i]);
        assert(forall|i: int| 0 <= i < 32 ==> #[trigger] h[i] == l[p - 37 + i]);
        assert(forall|i: int| 0 <= i < 5 ==> #[trigger] l.subrange(p - 5, p)[i] == l[p - 5 + i]);
        assert(l.subrange(p - 5, p) == lzma_suffix());
    }
}

/// If the digits of the size field already exceed the 64-bit range at
/// position `i`, the whole size field does, whatever follows.
proof fn lemma_size_overflow(l: Seq<char>, p: int, i: int)
    requires
        0 <= p,
        p + 1 <= i < l.len(),
        forall|j: int| p + 1 <= j < i ==> is_digit(#[trigger] l[j]),
        is_digit(l[i]),
        dec_val(l.subrange(p + 1, i + 1)) > u64::MAX as int,
    ensures
        !size_ok(l, p),
{
    if forall|j: int| p + 1 <= j < l.len() ==> is_digit(#[trigger] l[j]) {
        let ss = l.subrange(p + 1, l.len() as int);
        assert(forall|j: int| 0 <= j < ss.len() ==> is_digit(#[trigger] ss[j])) by {
            assert(forall|j: int| 0 <= j < ss.len() ==> #[trigger] ss[j] == l[p + 1 + j]);
        }
        lemma_dec_val_prefix(ss, i - p);
        assert(ss.subrange(0, i - p) =~= l.subrange(p + 1, i + 1));
    }
}

} // verus!

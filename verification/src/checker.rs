//! Deciding, by content hash, whether a local file is stale. The caller owns
//! all file I/O: for each manifest entry it probes the local file system and
//! hands in what it found — no realizable path, no file, the file's bytes,
//! or a read error — and this module decides, against the entry's declared
//! hash, whether the file needs to be fetched.

use vstd::prelude::*;
use crate::manifest::File;

verus! {

/// What probing the local file system for one entry turned up.
pub enum FileProbe {
    /// The entry's virtual path could not be mapped to a real location
    /// (for example, the game's install directory is missing). Treated as
    /// stale, never as an error.
    Unrealizable,
    /// The realized file does not exist. Treated as stale, never as an
    /// error.
    Missing,
    /// The realized file exists and these are its bytes.
    Content(Vec<u8>),
    /// Reading the realized file failed for another reason; the error is
    /// passed through to the caller.
    Unreadable(std::io::Error),
}

#[verifier::external_type_specification]
#[verifier::external_body]
pub struct ExIoError(std::io::Error);

/// The 16-byte MD5 digest of a byte string, as the outside hash
/// implementation computes it.
pub uninterp spec fn md5_of(data: Seq<u8>) -> Seq<u8>;

/// Relies on crypto::md5::Md5 (crate rust-crypto): the digest is a function
/// of the input bytes alone, and is 16 bytes long.
#[verifier::external_body]
fn md5_digest(data: &[u8]) -> (r: Vec<u8>)
    ensures
        r@ == md5_of(data@),
        r@.len() == 16,
{
    let mut md5 = crypto::md5::Md5::new();
    crypto::digest::Digest::input(&mut md5, data);
    let mut out = [0u8; 16];
    crypto::digest::Digest::result(&mut md5, &mut out);
    out.to_vec()
}

/// Byte-wise equality of two byte strings.
fn bytes_eq(a: &[u8], b: &[u8]) -> (r: bool)
    ensures
        r == (a@ == b@),
{
    if a.len() != b.len() {
        return false;
    }
    let n = a.len();
    let mut i: usize = 0;
    while i < n
        invariant
            n == a@.len(),
            n == b@.len(),
            i <= n,
            forall|j: int| 0 <= j < i ==> a@[j] == b@[j],
        decreases n - i,
    {
        if a[i] != b[i] {
            return false;
        }
        i += 1;
    }
    proof {
        assert(a@ =~= b@);
    }
    true
}

/// What checking one entry against its probe decides: `Some(true)` when the
/// file must be fetched, `Some(false)` when it is current, `None` when the
/// probe ended in a read error that the caller must see.
pub open spec fn spec_needs_update(f: File, probe: FileProbe) -> Option<bool> {
    match probe {
        FileProbe::Unrealizable => Some(true),
        FileProbe::Missing => Some(true),
        FileProbe::Content(c) => Some(md5_of(c@) != f.md5sum@),
        FileProbe::Unreadable(_) => None,
    }
}

/// Decides whether one entry needs updating, given what the caller's probe
/// of the local file system found.
///
/// A path that cannot be realized and a file that does not exist both need
/// fetching and are never errors; existing content is hashed and compared
/// byte for byte against the entry's declared hash; a read error is passed
/// through unchanged.
pub fn check_file(file: &File, probe: FileProbe) -> (r: Result<bool, std::io::Error>)
    ensures
        match spec_needs_update(*file, probe) {
            Some(b) => r matches Ok(rb) && rb == b,
            None => r is Err && (probe matches FileProbe::Unreadable(e) && r matches Err(e2) && e
                == e2),
        },
{
    match probe {
        FileProbe::Unrealizable => Ok(true),
        FileProbe::Missing => Ok(true),
        FileProbe::Content(c) => {
            let digest = md5_digest(c.as_slice());
            Ok(!bytes_eq(digest.as_slice(), file.md5sum.as_slice()))
        },
        FileProbe::Unreadable(e) => Err(e),
    }
}

/// The entries among `files` that need updating, in order, when probe `i`
/// answers for entry `i`; meaningful when no probe ended in a read error.
pub open spec fn spec_stale_files(files: Seq<File>, probes: Seq<FileProbe>) -> Seq<File>
    decreases files.len(),
{
    if files.len() == 0 || probes.len() == 0 {
        seq![]
    } else {
        let head: Seq<File> = if spec_needs_update(files[0], probes[0]) == Some(true) {
            seq![files[0]]
        } else {
            seq![]
        };
        head + spec_stale_files(files.drop_first(), probes.drop_first())
    }
}

/// Checks a batch of entries, probe `i` answering for entry `i`, and returns
/// exactly those that need updating, in input order. The first read error
/// fails the whole batch with that error.
#[verifier::loop_isolation(false)]
pub fn check_files(files: Vec<File>, probes: Vec<FileProbe>) -> (r: Result<
    Vec<File>,
    std::io::Error,
>)
    requires
        files@.len() == probes@.len(),
    ensures
        match r {
            Ok(v) => {
                &&& forall|i: int|
                    0 <= i < files@.len() ==> spec_needs_update(files@[i], #[trigger] probes@[i])
                        is Some
                &&& v@ == spec_stale_files(files@, probes@)
            },
            Err(e) => exists|i: int|
                {
                    &&& 0 <= i < files@.len()
                    &&& (#[trigger] probes@[i]) matches FileProbe::Unreadable(err) && err == e
                    &&& forall|j: int|
                        0 <= j < i ==> spec_needs_update(files@[j], #[trigger] probes@[j]) is Some
                },
        },
{
    let ghost gfiles = files@;
    let ghost gprobes = probes@;
    let n = files.len();
    let mut out: Vec<File> = Vec::new();
    let mut rem_files = files;
    let mut rem_probes = probes;
    let mut i: usize = 0;
    proof {
        assert(gfiles.skip(0) =~= gfiles);
        assert(gprobes.skip(0) =~= gprobes);
    }
    while i < n
        invariant
            n == gfiles.len(),
            gfiles.len() == gprobes.len(),
            i <= n,
            rem_files@ == gfiles.skip(i as int),
            rem_probes@ == gprobes.skip(i as int),
            forall|j: int|
                0 <= j < i ==> spec_needs_update(gfiles[j], #[trigger] gprobes[j]) is Some,
            out@ + spec_stale_files(gfiles.skip(i as int), gprobes.skip(i as int))
                == spec_stale_files(gfiles, gprobes),
        decreases n - i,
    {
        let file = rem_files.remove(0);
        let probe = rem_probes.remove(0);
        proof {
            assert(gfiles.skip(i as int)[0] == gfiles[i as int]);
            assert(gprobes.skip(i as int)[0] == gprobes[i as int]);
            assert(gfiles.skip(i as int).drop_first() =~= gfiles.skip(i as int + 1));
            assert(gprobes.skip(i as int).drop_first() =~= gprobes.skip(i as int + 1));
            assert(rem_files@ =~= gfiles.skip(i as int + 1));
            assert(rem_probes@ =~= gprobes.skip(i as int + 1));
        }
        let ghost prev = out@;
        let ghost rest = spec_stale_files(gfiles.skip(i as int + 1), gprobes.skip(i as int + 1));
        match check_file(&file, probe) {
            Ok(needs) => {
                if needs {
                    out.push(file);
                    proof {
                        assert(out@ =~= prev + seq![file]);
                        assert(prev + (seq![file] + rest) =~= (prev + seq![file]) + rest);
                    }
                } else {
                    proof {
                        assert(spec_stale_files(
                            gfiles.skip(i as int),
                            gprobes.skip(i as int),
                        ) =~= rest);
                    }
                }
            },
            Err(e) => {
                proof {
                    assert(gprobes[i as int] matches FileProbe::Unreadable(err) && err == e);
                }
                return Err(e);
            },
        }
        i += 1;
    }
    Ok(out)
}

} // verus!

use wfupdate::checker::{check_file, check_files, FileProbe};
use wfupdate::manifest::File;

fn entry(disk_path: &str, md5sum: Vec<u8>) -> File {
    File {
        download_path: String::new(),
        disk_path: disk_path.to_string(),
        md5sum,
        size: 0,
    }
}

// The well-known MD5 digest of the three bytes `abc`.
fn md5_of_abc() -> Vec<u8> {
    vec![
        0x90, 0x01, 0x50, 0x98, 0x3c, 0xd2, 0x4f, 0xb0, 0xd6, 0x96, 0x3f, 0x7d, 0x28, 0xe1, 0x7f,
        0x72,
    ]
}

#[test]
fn matching_content_needs_no_update() {
    let f = entry("/a", md5_of_abc());
    let r = check_file(&f, FileProbe::Content(b"abc".to_vec()));
    assert_eq!(r.unwrap(), false);
}

#[test]
fn mismatched_content_needs_update() {
    let f = entry("/a", md5_of_abc());
    let r = check_file(&f, FileProbe::Content(b"abd".to_vec()));
    assert_eq!(r.unwrap(), true);
}

#[test]
fn missing_file_needs_update_without_error() {
    let f = entry("/a", md5_of_abc());
    assert_eq!(check_file(&f, FileProbe::Missing).unwrap(), true);
    assert_eq!(check_file(&f, FileProbe::Unrealizable).unwrap(), true);
}

#[test]
fn read_errors_propagate() {
    let f = entry("/a", md5_of_abc());
    let e = std::io::Error::new(std::io::ErrorKind::PermissionDenied, "denied");
    assert!(check_file(&f, FileProbe::Unreadable(e)).is_err());
}

#[test]
fn batch_keeps_order_and_filters() {
    let files = vec![
        entry("/one", md5_of_abc()),
        entry("/two", md5_of_abc()),
        entry("/three", md5_of_abc()),
    ];
    let probes = vec![
        FileProbe::Missing,
        FileProbe::Content(b"abc".to_vec()),
        FileProbe::Content(b"xyz".to_vec()),
    ];
    let stale = check_files(files, probes).unwrap();
    assert_eq!(stale.len(), 2);
    assert_eq!(stale[0].disk_path, "/one");
    assert_eq!(stale[1].disk_path, "/three");
}

#[test]
fn batch_fails_on_the_first_read_error() {
    let files = vec![entry("/one", md5_of_abc()), entry("/two", md5_of_abc())];
    let probes = vec![
        FileProbe::Unreadable(std::io::Error::new(std::io::ErrorKind::PermissionDenied, "no")),
        FileProbe::Missing,
    ];
    assert!(check_files(files, probes).is_err());
}

use wfupdate::logparser::{
    fold_lines, parse_bytes, parse_line, probe_lines, should_track, LogLine, Progress,
};

#[test]
fn test_parse_bytes() {
    assert_eq!(parse_bytes(""), 0);
    assert_eq!(parse_bytes("4"), 4);
    assert_eq!(parse_bytes("14,520"), 14520);
    assert_eq!(parse_bytes("1,2,3,4,5"), 12345);
    assert_eq!(parse_bytes("4,493,854,909"), 4493854909);
}

#[test]
fn test_shouldnt_fail_on_empty_input() {
    parse_line("");
}

#[test]
fn test_detect_hashmismatch() {
    let result = parse_line(
        "4.489 Sys [Info]: /Lotus/Levels/OrokinDerelict/PipeConnectorDerelict1/0_c.fbx is out of date (hash mismatch)",
    );
    assert_eq!(
        result,
        LogLine::HashMismatch(String::from(
            "/Lotus/Levels/OrokinDerelict/PipeConnectorDerelict1/0_c.fbx"
        ))
    );
}

#[test]
fn test_detect_bytestodownload() {
    let result = parse_line("14.182 Sys [Info]: 4,493,854,909 bytes to download");
    assert_eq!(result, LogLine::BytesToDownload(4493854909));
}

#[test]
fn test_detect_usedshared() {
    let result = parse_line(
        "109.880 Sys [Info]: Used shared /Lotus/Objects/Natural/Skybox/TennoHanger/GasPlaneOptA.fbx (3,607B Copy: 1.20s Write: 0s Latency: 95.6s)",
    );
    assert_eq!(
        result,
        LogLine::UsedShared(
            3607,
            String::from("/Lotus/Objects/Natural/Skybox/TennoHanger/GasPlaneOptA.fbx")
        )
    );
}

#[test]
fn unrecognized_lines_are_unknown() {
    assert_eq!(parse_line("any old text"), LogLine::Unknown(String::new()));
    assert_eq!(
        parse_line("14.182 Sys [Info]: something else entirely"),
        LogLine::Unknown(String::new())
    );
    // A counter too large for 64 bits does not crash; the line is unknown.
    assert_eq!(
        parse_line("1.0 Sys [Info]: 99,999,999,999,999,999,999,999 bytes to download"),
        LogLine::Unknown(String::new())
    );
}

#[test]
fn fold_three_lines_end_to_end() {
    let lines = vec![
        parse_line("14.165 Sys [Info]: /Foo is out of date (hash mismatch)"),
        parse_line("14.182 Sys [Info]: 4,493,854,909 bytes to download"),
        parse_line("16.217 Sys [Info]: Used shared /Foo (25,705B Copy: 1.85s Write: 0s Latency: 2.01s)"),
    ];
    let p = fold_lines(&lines);
    assert_eq!(
        p,
        Progress {
            files_pending_total: 1,
            bytes_total: 4493854909,
            files_completed: 1,
            bytes_completed: 25705,
        }
    );
}

#[test]
fn fold_saturates_instead_of_overflowing() {
    let lines = vec![
        LogLine::UsedShared(u64::MAX, String::from("/a")),
        LogLine::UsedShared(17, String::from("/b")),
    ];
    let p = fold_lines(&lines);
    assert_eq!(p.files_completed, 2);
    assert_eq!(p.bytes_completed, u64::MAX);
}

#[test]
fn fold_keeps_the_last_announced_total() {
    let lines = vec![LogLine::BytesToDownload(10), LogLine::BytesToDownload(42)];
    let p = fold_lines(&lines);
    assert_eq!(p.bytes_total, 42);
    assert_eq!(p.files_pending_total, 0);
}

#[test]
fn tracking_filters_bookkeeping_and_noise() {
    assert!(!should_track(&LogLine::Unknown(String::new())));
    assert!(!should_track(&LogLine::UsedShared(106, String::from("/H.Cache.bin"))));
    assert!(should_track(&LogLine::UsedShared(3607, String::from("/Lotus/Thing.fbx"))));
    assert!(should_track(&LogLine::HashMismatch(String::from("/Foo"))));
    assert!(should_track(&LogLine::BytesToDownload(1)));
}

#[test]
fn probe_reports_total_and_pending_files() {
    let lines = vec![
        String::from("1.0 Sys [Info]: /A is out of date (hash mismatch)"),
        String::from("1.1 Sys [Info]: noise"),
        String::from("1.2 Sys [Info]: /B is out of date (hash mismatch)"),
        String::from("1.3 Sys [Info]: 14,520 bytes to download"),
        String::from("1.4 Sys [Info]: /C is out of date (hash mismatch)"),
    ];
    let r = probe_lines(&lines);
    assert_eq!(r.bytes_total, Some(14520));
    // The stale file after the announcement is not read any more.
    assert_eq!(r.files_pending, 2);
}

#[test]
fn probe_without_total_reports_no_update() {
    let lines = vec![
        String::from("1.0 Sys [Info]: /A is out of date (hash mismatch)"),
        String::from("just noise"),
    ];
    let r = probe_lines(&lines);
    assert_eq!(r.bytes_total, None);
    assert_eq!(r.files_pending, 1);

    let r = probe_lines(&Vec::new());
    assert_eq!(r.bytes_total, None);
    assert_eq!(r.files_pending, 0);
}

#[test]
fn kind_names_match_the_variants() {
    assert_eq!(LogLine::HashMismatch(String::new()).kind_name(), "HashMismatch");
    assert_eq!(LogLine::BytesToDownload(0).kind_name(), "BytesToDownload");
    assert_eq!(LogLine::UsedShared(0, String::new()).kind_name(), "UsedShared");
    assert_eq!(LogLine::Unknown(String::new()).kind_name(), "Unknown");
}

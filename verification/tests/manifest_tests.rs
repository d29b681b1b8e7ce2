use wfupdate::manifest::{asset_selected, categorize, parse_file_list, File, FileType, ParseError,
    UpdatePolicy};

fn quickcat(path: &str) -> FileType {
    categorize(&File {
        disk_path: path.to_string(),
        download_path: "".to_string(),
        md5sum: vec![],
        size: 0,
    })
}

#[test]
fn test_categorize() {
    assert_eq!(quickcat("/Warframe.exe"), FileType::Exe32Bit);
    assert_eq!(quickcat("/Warframe.x64.exe"), FileType::Exe64Bit);
    assert_eq!(quickcat("/Cache.Windows/B.AnimRetarget.cache"), FileType::GameAsset);
    assert_eq!(quickcat("/Tools/Windows/steamController.vdf"), FileType::SteamAsset);
    assert_eq!(quickcat("/Tools/CEF3_1/launcher.zip"), FileType::LauncherAsset);
    assert_eq!(quickcat("/etc/passwd"), FileType::Unknown);
}

#[test]
fn test_parse() {
    let mut test_list: String =
        "/Tools/Launcher.exe.F336FD22FDF21024C75FF46FE8F7A06E.lzma,313612\r\n".to_string();
    test_list.push_str("/Tools/Windows/x86/msvcr110.dll.4BA25D2CBE1587A841DCFB8C8C4A6EA6.lzma,351188\r\n");
    test_list.push_str("/Tools/Windows/x86/steam_api.dll.A83ADE32811F1419685E90F592ADF505.lzma,77655\r\n");
    test_list.push_str("/Tools/Windows/x86/symsrv.dll.64DEA54A4457371DEC27A4CFAE6EFB50.lzma,47951\r\n");
    test_list.push_str("/Warframe.exe.3BB594902B2E8037901ED9B2419E8FD5.lzma,6998205\r\n");

    let result = parse_file_list(test_list);
    assert!(result.is_ok());

    // bad filesize
    let result = parse_file_list(
        "/Warframe.exe.3BB594902B2E8037901ED9B2419E8FD5.lzma,dskfn1j3r\r\n".to_string(),
    );
    assert!(result.is_err());

    // invalid MD5 hash
    let result = parse_file_list(
        "/Warframe.exe.CATSCATSCATS8037901ED9B2419E8FD5.lzma,6998205\r\n".to_string(),
    );
    assert!(result.is_err());
}

#[test]
fn parse_reports_exact_errors() {
    // A non-numeric size names the size, not the hash.
    let r = parse_file_list(
        "/Warframe.exe.3BB594902B2E8037901ED9B2419E8FD5.lzma,abc\n".to_string(),
    );
    assert_eq!(r.unwrap_err(), ParseError::InvalidSize);

    // A line with no comma at all.
    let r = parse_file_list("/Warframe.exe.3BB594902B2E8037901ED9B2419E8FD5.lzma\n".to_string());
    assert_eq!(r.unwrap_err(), ParseError::MissingDelimiter);

    // A bad hash.
    let r = parse_file_list(
        "/Warframe.exe.ZZZ594902B2E8037901ED9B2419E8FD5.lzma,123\n".to_string(),
    );
    assert_eq!(r.unwrap_err(), ParseError::InvalidHash);

    // One bad line among good ones fails the whole call.
    let mut list = "/Warframe.exe.3BB594902B2E8037901ED9B2419E8FD5.lzma,6998205\r\n".to_string();
    list.push_str("/Warframe.exe.3BB594902B2E8037901ED9B2419E8FD5.lzma,bad\r\n");
    list.push_str("/Tools/Launcher.exe.F336FD22FDF21024C75FF46FE8F7A06E.lzma,313612\r\n");
    assert_eq!(parse_file_list(list).unwrap_err(), ParseError::InvalidSize);
}

#[test]
fn parse_end_to_end_launcher_line() {
    let files = parse_file_list(
        "/Tools/Launcher.exe.F336FD22FDF21024C75FF46FE8F7A06E.lzma,313612".to_string(),
    )
    .unwrap();
    assert_eq!(files.len(), 1);
    let f = &files[0];
    assert_eq!(f.download_path, "/Tools/Launcher.exe.F336FD22FDF21024C75FF46FE8F7A06E.lzma");
    assert_eq!(f.disk_path, "/Tools/Launcher.exe");
    assert_eq!(
        f.md5sum,
        vec![
            0xF3, 0x36, 0xFD, 0x22, 0xFD, 0xF2, 0x10, 0x24, 0xC7, 0x5F, 0xF4, 0x6F, 0xE8, 0xF7,
            0xA0, 0x6E
        ]
    );
    assert_eq!(f.size, 313612);
    assert_eq!(categorize(f), FileType::LauncherAsset);
}

#[test]
fn parse_round_trips_the_name_field() {
    let line = "/Warframe.exe.3BB594902B2E8037901ED9B2419E8FD5.lzma,6998205".to_string();
    let files = parse_file_list(line).unwrap();
    let f = &files[0];
    let mut rederived = f.disk_path.clone();
    rederived.push('.');
    for b in &f.md5sum {
        rederived.push_str(&format!("{:02X}", b));
    }
    rederived.push_str(".lzma");
    assert_eq!(rederived, f.download_path);
}

#[test]
fn categorize_prefers_the_64bit_rule() {
    // Carries both the 64-bit and the 32-bit marker: the 64-bit rule is
    // checked first and wins.
    assert_eq!(quickcat("/Tools/x64/x86/thing.dll"), FileType::Exe64Bit);
    // The distribution-platform rule outranks both.
    assert_eq!(quickcat("/Tools/x64/steam_api64.dll"), FileType::SteamAsset);
}

#[test]
fn empty_manifest_parses_to_nothing() {
    assert_eq!(parse_file_list(String::new()).unwrap().len(), 0);
}

#[test]
fn policy_gates_only_the_optional_classes() {
    let none = UpdatePolicy { include_steam: false, include_64bit: false, include_game_assets: false };
    let all = UpdatePolicy { include_steam: true, include_64bit: true, include_game_assets: true };
    assert!(asset_selected(FileType::Exe32Bit, &none));
    assert!(asset_selected(FileType::LauncherAsset, &none));
    assert!(asset_selected(FileType::Unknown, &none));
    assert!(!asset_selected(FileType::SteamAsset, &none));
    assert!(!asset_selected(FileType::Exe64Bit, &none));
    assert!(!asset_selected(FileType::GameAsset, &none));
    assert!(asset_selected(FileType::SteamAsset, &all));
    assert!(asset_selected(FileType::Exe64Bit, &all));
    assert!(asset_selected(FileType::GameAsset, &all));
}

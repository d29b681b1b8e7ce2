use wfupdate::paths::{game_install_dir, launcher_dir, launcher_exe, realize_path, wineprefix};
use wfupdate::wine::{parse_wine_version, WineSource, WineVersion};
use wfupdate::config::{parse_bool, parse_configid};
use wfupdate::launch::{base_game_args, game_binary_name, LaunchSettings};

#[test]
fn launcher_files_realize_under_the_launcher_dir() {
    let r = realize_path("/Tools/Launcher.exe", Some("/wf/launcher"), Some("/wf/game"));
    assert_eq!(r.unwrap(), "/wf/launcher/Downloaded/Public/Tools/Launcher.exe");
    let r = realize_path("/Tools/CEF3_1/launcher.zip", Some("/wf/launcher"), Some("/wf/game"));
    assert_eq!(r.unwrap(), "/wf/launcher/Downloaded/Public/Tools/CEF3_1/launcher.zip");
}

#[test]
fn game_files_realize_under_the_install_dir() {
    let r = realize_path("/Warframe.exe", Some("/wf/launcher"), Some("/wf/game"));
    assert_eq!(r.unwrap(), "/wf/game/Warframe.exe");
}

#[test]
fn missing_roots_make_realization_impossible() {
    assert_eq!(realize_path("/Warframe.exe", Some("/l"), None), None);
    assert_eq!(realize_path("/Tools/Launcher.exe", None, Some("/g")), None);
}

#[test]
fn directories_follow_the_prefix_layout() {
    assert_eq!(
        launcher_dir("/home/u/.wine", "u"),
        "/home/u/.wine/drive_c/users/u/Local Settings/Application Data/Warframe"
    );
    assert_eq!(
        game_install_dir("/home/u/.wine"),
        "/home/u/.wine/drive_c/Program Files/Warframe/Downloaded/Public"
    );
    assert_eq!(
        launcher_exe("/home/u/.wine/drive_c/users/u/Local Settings/Application Data/Warframe"),
        "/home/u/.wine/drive_c/users/u/Local Settings/Application Data/Warframe/Downloaded/Public/Tools/Launcher.exe"
    );
}

#[test]
fn wineprefix_prefers_config_then_environment() {
    assert_eq!(
        wineprefix(Some("/cfg".to_string()), Some("/env".to_string()), "/home/u"),
        "/cfg"
    );
    assert_eq!(wineprefix(None, Some("/env".to_string()), "/home/u"), "/env");
    assert_eq!(wineprefix(None, None, "/home/u"), "/home/u/.wine");
}

#[test]
fn wine_versions_read_their_staging_tag() {
    let v = WineVersion::new("4.0 (Staging)".to_string(), WineSource::System, "/usr".to_string());
    assert!(v.is_staging);
    assert_eq!(v.version, "4.0 (Staging)");
    assert_eq!(v.source, WineSource::System);
    assert_eq!(v.path, "/usr");
    let v = WineVersion::new("4.0".to_string(), WineSource::PlayOnLinux, "/p".to_string());
    assert!(!v.is_staging);
}

#[test]
fn wine_version_output_is_reduced_to_the_number() {
    assert_eq!(parse_wine_version("wine-4.0\n").unwrap(), "4.0");
    assert_eq!(parse_wine_version("wine-3.0.4 (Staging)").unwrap(), "3.0.4 (Staging)");
    assert_eq!(parse_wine_version("err\n"), None);
    assert_eq!(parse_wine_version("wine-").unwrap(), "");
}

#[test]
fn decimal_rendering_is_exact() {
    assert_eq!(wfupdate::digits::u64_to_string(0), "0");
    assert_eq!(wfupdate::digits::u64_to_string(7), "7");
    assert_eq!(wfupdate::digits::u64_to_string(1234567890), "1234567890");
    assert_eq!(wfupdate::digits::u64_to_string(u64::MAX), "18446744073709551615");
}

#[test]
fn config_keys_split_at_the_first_colon() {
    let (section, key) = parse_configid("wine:wineprefix");
    assert_eq!(section, Some("wine".to_string()));
    assert_eq!(key, "wineprefix");
    let (section, key) = parse_configid("game:dx11");
    assert_eq!(section, Some("game".to_string()));
    assert_eq!(key, "dx11");
    let (section, key) = parse_configid("encoding");
    assert_eq!(section, None);
    assert_eq!(key, "encoding");
}

#[test]
fn config_booleans_accept_true_and_one() {
    assert!(parse_bool(Some("true")));
    assert!(parse_bool(Some("1")));
    assert!(!parse_bool(Some("yes")));
    assert!(!parse_bool(Some("0")));
    assert!(!parse_bool(None));
}

#[test]
fn game_command_line_is_fixed() {
    assert_eq!(game_binary_name(true), "Warframe.x64.exe");
    assert_eq!(game_binary_name(false), "Warframe.exe");
    let args = base_game_args(&LaunchSettings {
        log_stamp: Some(1234567890),
        dx10: false,
        dx11: true,
        language: "en".to_string(),
    });
    assert_eq!(
        args,
        vec![
            "-threadedworker:1",
            "-cluster:public",
            "-log:/wfupdate-1234567890.log",
            "-dx10:0",
            "-dx11:1",
            "-language:en",
        ]
    );
    let args = base_game_args(&LaunchSettings {
        log_stamp: None,
        dx10: true,
        dx11: false,
        language: "de".to_string(),
    });
    assert_eq!(args[2], "-log:/wfupdate.log");
    assert_eq!(args[3], "-dx10:1");
    assert_eq!(args[4], "-dx11:0");
    assert_eq!(args[5], "-language:de");
}

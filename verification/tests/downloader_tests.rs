use wfupdate::downloader::{content_url, decompress_body, hex8_upper, index_path_for,
    index_remote_path, DownloaderError};

#[test]
fn urls_are_plain_concatenation() {
    assert_eq!(
        content_url("/Tools/Launcher.exe.F336FD22FDF21024C75FF46FE8F7A06E.lzma"),
        "http://origin.warframe.com//Tools/Launcher.exe.F336FD22FDF21024C75FF46FE8F7A06E.lzma"
    );
    assert_eq!(
        content_url("origin/00000000/index.txt.lzma"),
        "http://origin.warframe.com/origin/00000000/index.txt.lzma"
    );
}

#[test]
fn hex_rendering_is_padded_upper_case() {
    assert_eq!(hex8_upper(0), "00000000");
    assert_eq!(hex8_upper(0x89ABCDEF), "89ABCDEF");
    assert_eq!(hex8_upper(0x1234), "00001234");
    assert_eq!(hex8_upper(u32::MAX), "FFFFFFFF");
}

#[test]
fn index_path_embeds_the_mirror_segment() {
    assert_eq!(index_path_for(0xDEADBEEF), "origin/DEADBEEF/index.txt.lzma");
    let p = index_remote_path();
    assert_eq!(p.len(), "origin/XXXXXXXX/index.txt.lzma".len());
    assert!(p.starts_with("origin/"));
    assert!(p.ends_with("/index.txt.lzma"));
    for c in p["origin/".len().."origin/".len() + 8].chars() {
        assert!(c.is_ascii_hexdigit());
        assert!(!c.is_ascii_lowercase());
    }
}

#[test]
fn decompression_inverts_compression() {
    let body = b"Like tears in rain, again and again and again.".to_vec();
    let compressed = lzma::compress(&body, 6).unwrap();
    assert_ne!(compressed, body);
    let out = decompress_body(&compressed).unwrap();
    assert_eq!(out, body);
}

#[test]
fn garbage_does_not_decompress() {
    let e = decompress_body(&[0x00, 0x01, 0x02, 0x03]).unwrap_err();
    assert!(e == DownloaderError::Decompress || e == DownloaderError::Io);
}

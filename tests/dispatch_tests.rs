use kaya_sync::dispatch::{
    bookmark_urls, is_bookmark_file, response_for, route, IncomingMessage, Request,
};
use kaya_sync::error::{ConfigIssue, CryptoFailure, KayaError};
use kaya_sync::mime::{mime_type_for, upload_mime};
use kaya_sync::paths::{get_anga_dir, get_config_path, get_kaya_dir, get_meta_dir, join_path};
use kaya_sync::sync::Collection;

fn msg(kind: &str) -> IncomingMessage {
    IncomingMessage {
        id: Some(1),
        message: kind.to_string(),
        filename: None,
        content_type: None,
        text: None,
        base64: None,
        server: None,
        email: None,
        password: None,
    }
}

#[test]
fn invalid_base64_content_fails_without_request() {
    let mut m = msg("anga");
    m.filename = Some("f.bin".to_string());
    m.content_type = Some("base64".to_string());
    m.base64 = Some("***not base64***".to_string());
    let r = route(&m);
    assert!(matches!(r, Err(KayaError::Base64)));
    let out = response_for(m.id, &r.map(|_| ()), None);
    assert!(!out.success);
    assert_eq!(out.error.as_deref(), Some("Base64 decode error"));
    assert!(out.urls.is_none() && out.message_type.is_none());
}

#[test]
fn content_write_by_tag() {
    let mut m = msg("anga");
    m.filename = Some("f.bin".to_string());
    m.content_type = Some("base64".to_string());
    m.base64 = Some("aGVsbG8=".to_string());
    match route(&m).unwrap() {
        Request::Anga { filename, content } => {
            assert_eq!(filename, "f.bin");
            assert_eq!(content, b"hello".to_vec());
        }
        _ => panic!("wrong request"),
    }
    m.content_type = None;
    m.text = Some("plain".to_string());
    assert!(matches!(route(&m).unwrap(), Request::Anga { content, .. } if content == b"plain".to_vec()));
    m.content_type = Some("text".to_string());
    assert!(matches!(route(&m).unwrap(), Request::Anga { content, .. } if content == b"plain".to_vec()));
    m.content_type = Some("html".to_string());
    assert!(matches!(
        route(&m),
        Err(KayaError::Config(ConfigIssue::UnknownContentType(t))) if t == "html"
    ));
}

#[test]
fn missing_fields_are_named() {
    let m = msg("anga");
    assert!(matches!(route(&m), Err(KayaError::Config(ConfigIssue::MissingFilename))));
    let mut m = msg("anga");
    m.filename = Some("x".to_string());
    m.content_type = Some("base64".to_string());
    assert!(matches!(route(&m), Err(KayaError::Config(ConfigIssue::MissingBase64))));
    m.content_type = None;
    assert!(matches!(route(&m), Err(KayaError::Config(ConfigIssue::MissingText))));
    let mut meta = msg("meta");
    assert!(matches!(route(&meta), Err(KayaError::Config(ConfigIssue::MissingFilename))));
    meta.filename = Some("n.toml".to_string());
    assert!(matches!(route(&meta), Err(KayaError::Config(ConfigIssue::MissingText))));
    meta.text = Some("a = 1".to_string());
    assert!(matches!(route(&meta).unwrap(), Request::Meta { filename, text } if filename == "n.toml" && text == "a = 1"));
}

#[test]
fn config_and_unknown_messages() {
    let mut m = msg("config");
    m.server = Some("https://s".to_string());
    m.password = Some("secret".to_string());
    match route(&m).unwrap() {
        Request::Config { server, email, password } => {
            assert_eq!(server.as_deref(), Some("https://s"));
            assert_eq!(email, None);
            assert_eq!(password.as_deref(), Some("secret"));
        }
        _ => panic!("wrong request"),
    }
    let r = route(&msg("ping"));
    assert!(matches!(&r, Err(KayaError::Config(ConfigIssue::UnknownMessage(t))) if t == "ping"));
    let out = response_for(Some(4), &r.map(|_| ()), None);
    assert_eq!(out.error.as_deref(), Some("Config error: Unknown message type: ping"));
    assert_eq!(out.id, Some(4));
}

#[test]
fn success_response_carries_bookmarks() {
    let urls = vec!["https://a".to_string()];
    let out = response_for(Some(2), &Ok(()), Some(urls.clone()));
    assert!(out.success);
    assert_eq!(out.urls, Some(urls));
    assert_eq!(out.message_type.as_deref(), Some("bookmarks"));
    assert!(out.error.is_none());
}

#[test]
fn error_texts() {
    assert_eq!(
        KayaError::Config(ConfigIssue::InvalidMessageLength(0)).describe(),
        "Config error: Invalid message length: 0"
    );
    assert_eq!(
        KayaError::Encryption(CryptoFailure::OpenFailed).describe(),
        "Encryption error: Failed to decrypt"
    );
    assert_eq!(KayaError::Io("gone".to_string()).describe(), "IO error: gone");
    assert_eq!(
        KayaError::Config(ConfigIssue::InvalidMessageLength(104857601)).describe(),
        "Config error: Invalid message length: 104857601"
    );
    assert_eq!(
        KayaError::Config(ConfigIssue::InvalidMessageLength(u32::MAX)).describe(),
        "Config error: Invalid message length: 4294967295"
    );
}

#[test]
fn bookmark_lines_are_extracted() {
    let content = "[InternetShortcut]\nURL=https://example.com/a\r\nIconIndex=0\nURL=https://b\n";
    assert_eq!(
        bookmark_urls(content),
        vec!["https://example.com/a".to_string(), "https://b".to_string()]
    );
    assert!(bookmark_urls("no urls here").is_empty());
    assert!(is_bookmark_file("site.url"));
    assert!(!is_bookmark_file(".url"));
    assert!(!is_bookmark_file("site.txt"));
}

#[test]
fn mime_types() {
    assert_eq!(mime_type_for("Report.PDF"), "application/pdf");
    assert_eq!(mime_type_for("notes.md"), "text/markdown");
    assert_eq!(mime_type_for("a.tar.gz"), "application/octet-stream");
    assert_eq!(mime_type_for("jpeg"), "image/jpeg");
    assert_eq!(mime_type_for("x.htm"), "text/html");
    assert_eq!(upload_mime(Collection::Meta, "x.png"), "application/toml");
    assert_eq!(upload_mime(Collection::Anga, "x.png"), "image/png");
}

#[test]
fn paths_under_home() {
    assert_eq!(get_kaya_dir("/home/u"), "/home/u/.kaya");
    assert_eq!(get_kaya_dir("/home/u/"), "/home/u/.kaya");
    assert_eq!(get_anga_dir("/home/u/.kaya"), "/home/u/.kaya/anga");
    assert_eq!(get_meta_dir("/home/u/.kaya"), "/home/u/.kaya/meta");
    assert_eq!(get_config_path("/home/u/.kaya"), "/home/u/.kaya/.config");
    assert_eq!(join_path("/base", "/abs"), "/abs");
    assert_eq!(join_path("", "rel"), "rel");
}

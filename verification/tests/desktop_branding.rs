use jotty_core::desktop_branding::{
    data_home_from, decode_data_url, desktop_entry_text, icon_file_name, is_ours, pick_base, remove_verdict,
    status_of, BRANDING_MARKER, DESKTOP_ID,
};

const PNG_B64: &str = "iVBORw0KGgoAAAANSUhEUgAAAAEAAAABCAYAAAAfFcSJAAAADUlEQVR42mP8z8BQDwAEhQGAhKmMIQAAAABJRU5ErkJggg==";
const PACKAGED: &str = "[Desktop Entry]\nType=Application\nExec=jotty-client\nStartupWMClass=jotty-client\nIcon=jotty-client\nName=jotty-desktop\nTerminal=false\n";

#[test]
fn decode_maps_mimes_and_rejects_garbage() {
    assert_eq!(decode_data_url(&format!("data:image/png;base64,{PNG_B64}")).unwrap().0, "png");
    assert_eq!(decode_data_url("data:image/svg+xml;base64,PHN2Zz48L3N2Zz4=").unwrap().0, "svg");
    assert_eq!(decode_data_url("data:image/jpeg;base64,AAAA").unwrap().0, "jpg");
    assert!(decode_data_url("not-a-data-url").is_none());
    assert!(decode_data_url("data:image/png;base64,!!!not base64!!!").is_none());
}

#[test]
fn entry_text_patches_name_and_icon_and_keeps_exec() {
    let t = desktop_entry_text(Some(PACKAGED), Some("Acme Notes"), Some("/home/u/.local/share/jotty-client/branding-icon.png"));
    assert!(t.contains("Name=Acme Notes"));
    assert!(t.contains("Icon=/home/u/.local/share/jotty-client/branding-icon.png"));
    assert!(t.contains("Exec=jotty-client")); // inherited from the packaged entry
    assert!(t.contains(BRANDING_MARKER));
    assert!(!t.contains("Name=jotty-desktop\n"));
}

#[test]
fn entry_text_drops_locale_variants_and_synthesizes_without_packaged() {
    let packaged = "[Desktop Entry]\nName=jotty-desktop\nName[de]=altes\nExec=jotty-client\nIcon=jotty-client\n";
    let t = desktop_entry_text(Some(packaged), Some("Acme"), None);
    assert!(t.contains("Name=Acme"));
    assert!(!t.contains("Name[de]"));
    let t2 = desktop_entry_text(None, None, Some("/icon.svg"));
    assert!(t2.contains("[Desktop Entry]"));
    assert!(t2.contains("Exec=jotty-client"));
    assert!(t2.contains("Icon=/icon.svg"));
    assert!(t2.contains("Name=jotty-desktop"));
}

#[test]
fn entry_text_exact_layout_without_packaged_entry() {
    let t = desktop_entry_text(None, Some("Acme"), Some("/i.png"));
    assert_eq!(
        t,
        "[Desktop Entry]\nIcon=/i.png\nName=Acme\nType=Application\nExec=jotty-client\nStartupWMClass=jotty-client\nTerminal=false\nX-JottyBranded=true\n"
    );
}

#[test]
fn entry_text_keeps_icon_when_none_given() {
    let t = desktop_entry_text(Some(PACKAGED), Some("Acme"), None);
    assert!(t.contains("Icon=jotty-client"));
    assert!(t.ends_with("X-JottyBranded=true\n"));
}

#[test]
fn entry_text_adds_missing_type_and_exec() {
    let t = desktop_entry_text(Some("[Desktop Entry]\nName=x\n"), None, None);
    assert_eq!(t, "[Desktop Entry]\nType=Application\nExec=jotty-client\nName=x\nX-JottyBranded=true\n");
}

#[test]
fn every_branded_entry_is_ours() {
    for (p, n, i) in [
        (Some(PACKAGED), Some("A\nB"), None),
        (None, None, None),
        (Some("garbage\r\n\n  "), Some("Acme"), Some("/x.png")),
    ] {
        assert!(is_ours(&desktop_entry_text(p, n, i)));
    }
    assert!(!is_ours(PACKAGED));
    assert!(is_ours("a\n  X-JottyBranded=true  \r\nb"));
}

#[test]
fn pick_base_skips_unreadable_and_own_entries() {
    let texts = vec![None, Some(desktop_entry_text(None, None, None)), Some(PACKAGED.to_string())];
    assert_eq!(pick_base(&texts), Some(2));
    assert_eq!(pick_base(&vec![None]), None);
}

#[test]
fn remove_verdict_protects_foreign_entries() {
    assert_eq!(remove_verdict(false, None), Ok(false));
    assert_eq!(remove_verdict(true, Some(desktop_entry_text(None, None, None))), Ok(true));
    assert_eq!(
        remove_verdict(true, Some(PACKAGED.to_string())),
        Err("existing launcher entry was not written by jotty — leaving it alone".to_string())
    );
    assert!(remove_verdict(true, None).is_err());
}

#[test]
fn status_reports_active_only_for_our_entry() {
    let s = status_of(true, Some(desktop_entry_text(None, None, None)));
    assert!(s.supported && s.active);
    assert!(!status_of(true, Some(PACKAGED.to_string())).active);
    assert!(!status_of(false, None).active);
}

#[test]
fn data_home_prefers_xdg_then_home() {
    assert_eq!(data_home_from(Some("/x".into()), Some("/home/u".into())), Some("/x".to_string()));
    assert_eq!(data_home_from(Some("".into()), Some("/home/u".into())), Some("/home/u/.local/share".to_string()));
    assert_eq!(data_home_from(None, Some("/home/u/".into())), Some("/home/u/.local/share".to_string()));
    assert_eq!(data_home_from(None, Some("".into())), None);
    assert_eq!(data_home_from(None, None), None);
}

#[test]
fn icon_file_and_desktop_id() {
    assert_eq!(icon_file_name("png"), "branding-icon.png");
    assert_eq!(DESKTOP_ID, "jotty-desktop.desktop");
}

#[test]
fn decoded_icon_bytes_and_extensions() {
    let (ext, bytes) = decode_data_url(&format!("data:image/png;base64,{PNG_B64}")).unwrap();
    assert_eq!(ext, "png");
    assert_eq!(bytes.len(), 70);
    assert_eq!(decode_data_url("data:image/webp,AAAA").unwrap().0, "webp");
    assert_eq!(decode_data_url("data:image/vnd.microsoft.icon;base64, AAAA ").unwrap(), ("ico".to_string(), vec![0, 0, 0]));
    assert_eq!(decode_data_url("data:text/plain;base64,").unwrap(), ("png".to_string(), vec![]));
    assert!(decode_data_url("data:image/png;base64").is_none());
}

#[test]
fn entry_text_shape_ends_with_marker_has_header_and_no_blank_lines() {
    let packaged = "\n[Desktop Entry]\n\nName=jotty\n   \nExec=/usr/bin/jotty-client %u\n";
    for p in [None, Some(packaged)] {
        let t = desktop_entry_text(p, Some("My Jotty"), Some("/tmp/icon.png"));
        assert!(t.ends_with("\nX-JottyBranded=true\n"));
        assert!(is_ours(&t));
        assert!(t.lines().all(|l| !l.trim().is_empty()));
        assert!(t.lines().any(|l| l.trim() == "[Desktop Entry]"));
    }
}

use ttplayer::skin::{
    accent_tint, builtin_ids, builtin_skin, check_deletable, default_skin, generate_css,
    hex_string, image_data_uri, list_skins, parse_hex_color, skin_id_for_name, skin_json_entry, has_distinct_keys, SkinBackground,
    SkinDefinition, SkinManager,
};

#[test]
fn new_uses_default_as_current() {
    let mgr = SkinManager::new();
    assert_eq!(mgr.current_skin_id(), "default");
    assert_eq!(mgr.current_skin().meta.name, "紫韵经典");
}

#[test]
fn parse_hex_color_handles_short_and_long() {
    assert_eq!(parse_hex_color("#7c3aed"), Some((124, 58, 237)));
    assert_eq!(parse_hex_color("#fff"), Some((255, 255, 255)));
    assert_eq!(parse_hex_color("000"), Some((0, 0, 0)));
    assert_eq!(parse_hex_color("#zzz"), None);
}

#[test]
fn css_includes_light_theme_block() {
    let mgr = SkinManager::new();
    let css = mgr.css_variables(&[]);
    assert!(
        css.contains("data-theme=\"light\""),
        "CSS must contain a light-theme override block"
    );
    assert!(
        css.contains("--bg-primary: #f2f2f2;"),
        "light block must override --bg-primary"
    );
    assert!(
        css.contains("--text-primary: #1a1a1a;"),
        "light block must override --text-primary"
    );
    // Accent should be preserved from the skin
    assert!(css.contains("--accent: #7c3aed;"));
}

#[test]
fn default_skin_matches_legacy_values() {
    let def = default_skin();
    assert_eq!(def.meta.name, "紫韵经典");
    assert_eq!(def.meta.author, "TTPlayer");
    assert_eq!(def.colors.accent, "#7c3aed");
    assert_eq!(def.colors.bg_primary, "#0f061a");
    assert_eq!(def.layout.border_radius, 4);
    assert_eq!(def.fonts.title, "'Segoe UI', 'Microsoft YaHei', sans-serif");
    assert!(def.fonts.mono.is_none());
    assert!(def.colors.spectrum_top.is_none());
}

#[test]
fn builtin_skins_loads_all_four() {
    let ids = builtin_ids();
    assert_eq!(ids.len(), 4, "expected 4 builtin skins");
    for id in ["default", "ttplayer-blue", "green", "rose"] {
        assert!(ids.iter().any(|i| i == id));
        assert!(builtin_skin(id).is_some());
    }
}

#[test]
fn ttplayer_blue_preserves_spectrum_and_mono_font() {
    let t = builtin_skin("ttplayer-blue").unwrap();
    assert_eq!(t.colors.accent, "#4a8db7");
    assert_eq!(t.colors.spectrum_top.as_deref(), Some("#27435f"));
    assert_eq!(t.colors.spectrum_peak.as_deref(), Some("#88aacb"));
    assert_eq!(t.layout.border_radius, 3);
    assert_eq!(t.fonts.mono.as_deref(), Some("'Courier New', monospace"));
}

#[test]
fn list_skins_includes_all_builtins() {
    // Nothing on disk: the compiled-in built-ins are listed.
    let list = list_skins(&Vec::new());
    for id in &["default", "ttplayer-blue", "green", "rose"] {
        let found = list.iter().find(|s| s.id == *id);
        assert!(found.is_some(), "missing builtin skin: {}", id);
        assert!(found.unwrap().is_builtin, "{} should be builtin", id);
    }
}

#[test]
fn css_emits_accent_rgb_and_light() {
    let mut mgr = SkinManager::new();
    // default skin — accent_light is explicit
    let css = mgr.css_variables(&[]);
    assert!(css.contains("--accent-rgb:"), "default CSS must contain --accent-rgb");
    assert!(css.contains("--accent-light: #C4B5FD;"), "default CSS must contain explicit --accent-light");

    // ttplayer-blue — accent #4a8db7 → rgb 74,141,183
    let css = mgr.apply_builtin("ttplayer-blue").unwrap();
    assert!(css.contains("--accent-rgb: 74, 141, 183;"));
    assert!(css.contains("--accent-light: #90e0ef;"));

    // green — accent #22c55e → rgb 34,197,94
    let css = mgr.apply_builtin("green").unwrap();
    assert!(css.contains("--accent-rgb: 34, 197, 94;"));
    assert!(css.contains("--accent-light: #86efac;"));

    // rose — accent #e11d48 → rgb 225,29,72
    let css = mgr.apply_builtin("rose").unwrap();
    assert!(css.contains("--accent-rgb: 225, 29, 72;"));
    assert!(css.contains("--accent-light: #fda4af;"));
}

#[test]
fn default_css_carries_accent_rgb() {
    let mgr = SkinManager::new();
    let css = mgr.css_variables(&[]);
    assert!(css.contains("--accent-rgb: 124, 58, 237;"), "{}", css);
}

#[test]
fn hex_parsing_edges() {
    assert_eq!(parse_hex_color("#7C3AED"), Some((124, 58, 237)));
    assert_eq!(parse_hex_color("  #abc  "), Some((0xaa, 0xbb, 0xcc)));
    assert_eq!(parse_hex_color("#abcd"), None);
    assert_eq!(parse_hex_color(""), None);
    assert_eq!(parse_hex_color("#12345"), None);
    assert_eq!(parse_hex_color("#123456"), Some((0x12, 0x34, 0x56)));
    assert_eq!(parse_hex_color("#+f+f+f"), None);
    assert_eq!(parse_hex_color("#é1"), None);
    assert_eq!(parse_hex_color("#ééé"), None);
    assert_eq!(parse_hex_color("##0a0B0c"), Some((10, 11, 12)));
}

#[test]
fn tint_and_hex_strings() {
    assert_eq!(hex_string((124, 58, 237)), "#7c3aed");
    assert_eq!(hex_string((0, 0, 0)), "#000000");
    // 55% of the way toward white
    assert_eq!(accent_tint((0, 0, 0)), "#8c8c8c");
    assert_eq!(accent_tint((255, 255, 255)), "#ffffff");
}

#[test]
fn image_uri_names_mime_by_extension() {
    assert_eq!(image_data_uri("a/b.png", b"hi"), "data:image/png;base64,aGk=");
    assert_eq!(image_data_uri("a/b.svg", b""), "data:image/svg+xml;base64,");
    assert_eq!(image_data_uri("a/b.bin", b"x"), "data:application/octet-stream;base64,eA==");
}

#[test]
fn builtin_lookup_and_apply() {
    assert!(builtin_skin("default").is_some());
    assert!(builtin_skin("nope").is_none());
    let mut mgr = SkinManager::new();
    assert!(mgr.apply_builtin("rose").is_ok());
    assert_eq!(mgr.current_skin_id(), "rose");
    assert_eq!(mgr.apply_builtin("nope"), Err("Skin not found: nope".to_string()));
    assert_eq!(mgr.current_skin_id(), "rose");
}

#[test]
fn delete_skin_rejects_default() {
    assert!(check_deletable("default").is_err());
    assert!(check_deletable("green").is_ok());
}

#[test]
fn listing_falls_back_to_builtins_and_sorts() {
    let list = list_skins(&Vec::new());
    let ids: Vec<&str> = list.iter().map(|s| s.id.as_str()).collect();
    assert_eq!(ids, vec!["default", "green", "rose", "ttplayer-blue"]);
    let mut other: SkinDefinition = default_skin();
    other.meta.name = "Zed".to_string();
    let disk = vec![("zed".to_string(), other), ("default".to_string(), default_skin())];
    let list = list_skins(&disk);
    assert_eq!(list[0].id, "default");
    assert_eq!(list[1].id, "zed");
    assert!(!list[1].is_builtin);
    assert_eq!(list[1].name, "Zed");
}

#[test]
fn skin_ids_from_names() {
    assert_eq!(skin_id_for_name("My Blue Skin"), "my-blue-skin");
}

#[test]
fn generated_css_is_the_managers_css() {
    let mgr = SkinManager::new();
    assert_eq!(generate_css(mgr.current_skin(), &[]), mgr.css_variables(&[]));
    let p = mgr.resolve_asset_path(Some("green"), "bg.png");
    assert!(p.ends_with("bg.png"));
    assert_eq!(mgr.resolve_asset_path(None, "x.png"), "x.png");
}

#[test]
fn skins_live_under_the_config_dir() {
    let mgr = SkinManager::with_config_dir(Some("/cfg".to_string()));
    assert_eq!(mgr.skin_dir_path(), "/cfg/ttplayer-next/skins");
    let mgr = SkinManager::with_config_dir(None);
    assert_eq!(mgr.skin_dir_path(), "./ttplayer-next/skins");
}

#[test]
fn skin_json_entry_is_the_first_match() {
    let names: Vec<String> =
        vec!["images/".into(), "images/bg.png".into(), "my-skin/skin.json".into(), "skin.json".into()];
    assert_eq!(skin_json_entry(&names), Some(2));
    let none: Vec<String> = vec!["skin.jsonx".into(), "kin.json".into()];
    assert_eq!(skin_json_entry(&none), None);
    assert_eq!(skin_json_entry(&[]), None);
}

#[test]
fn background_names_must_be_distinct() {
    let mut skin = default_skin();
    assert!(has_distinct_keys(&skin));
    let bg = |img: &str| SkinBackground {
        image: img.to_string(),
        size: "cover".to_string(),
        position: "center".to_string(),
        repeat: "no-repeat".to_string(),
    };
    skin.backgrounds.push(("main".to_string(), bg("a.png")));
    skin.backgrounds.push(("lyrics".to_string(), bg("b.png")));
    assert!(has_distinct_keys(&skin));
    skin.backgrounds.push(("main".to_string(), bg("c.png")));
    assert!(!has_distinct_keys(&skin));
}

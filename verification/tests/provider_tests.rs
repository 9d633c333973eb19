use ttplayer::lyrics_provider::{failover_step, LyricSearchResult, LyricsProviderRegistry, OpenApiProvider};

#[test]
fn openapi_composite_key_roundtrip() {
    let key = OpenApiProvider::composite_key(2, "晴天");
    let (n, kw) = OpenApiProvider::parse_key(&key).unwrap();
    assert_eq!(n, 2);
    assert_eq!(kw, "晴天");
}

#[test]
fn openapi_parse_key_rejects_foreign_format() {
    assert!(OpenApiProvider::parse_key("lrclib:123").is_none());
    assert!(OpenApiProvider::parse_key("garbage").is_none());
}

#[test]
fn parse_title_artist_with_dash() {
    let (title, artist) = OpenApiProvider::parse_title_artist("周杰伦 - 晴天");
    assert_eq!(title, "晴天");
    assert_eq!(artist, "周杰伦");
}

#[test]
fn parse_title_artist_no_dash() {
    let (title, artist) = OpenApiProvider::parse_title_artist("晴天");
    assert_eq!(title, "晴天");
    assert_eq!(artist, "");
}

#[test]
fn parse_list_json_array() {
    let body = r#"["周杰伦 - 晴天", "刘瑞琦 - 晴天"]"#;
    let results = OpenApiProvider::parse_list_response(body, "晴天");
    assert_eq!(results.len(), 2);
    assert_eq!(results[0].title, "晴天");
    assert_eq!(results[0].artist, "周杰伦");
    assert_eq!(results[0].id, "openapi:1:晴天");
    assert_eq!(results[1].title, "晴天");
    assert_eq!(results[1].artist, "刘瑞琦");
    assert_eq!(results[1].id, "openapi:2:晴天");
}

#[test]
fn parse_list_json_object_with_data() {
    let body = r#"{"code":200,"data":["周杰伦 - 晴天","刘瑞琦 - 晴天"]}"#;
    let results = OpenApiProvider::parse_list_response(body, "晴天");
    assert_eq!(results.len(), 2);
    assert_eq!(results[0].artist, "周杰伦");
    assert_eq!(results[1].artist, "刘瑞琦");
}

#[test]
fn parse_list_plain_text() {
    let body = "周杰伦 - 晴天\n刘瑞琦 - 晴天\n";
    let results = OpenApiProvider::parse_list_response(body, "晴天");
    assert_eq!(results.len(), 2);
    assert_eq!(results[0].artist, "周杰伦");
    assert_eq!(results[1].artist, "刘瑞琦");
}

#[test]
fn parse_list_empty_array() {
    let results = OpenApiProvider::parse_list_response("[]", "晴天");
    assert!(results.is_empty());
}

#[test]
fn check_api_error_ok() {
    assert!(OpenApiProvider::check_api_error("normal text").is_ok());
}

#[test]
fn check_api_error_empty() {
    assert!(OpenApiProvider::check_api_error("").is_err());
}

#[test]
fn check_api_error_missing_token() {
    let err = OpenApiProvider::check_api_error("code:110").unwrap_err();
    assert!(err.contains("缺少"));
}

#[test]
fn check_api_error_invalid_token() {
    let err = OpenApiProvider::check_api_error("code:120").unwrap_err();
    assert!(err.contains("无效"));
}

#[test]
fn check_api_error_other_codes() {
    assert_eq!(OpenApiProvider::check_api_error("  \n "), Err("服务器返回空响应"));
    assert_eq!(OpenApiProvider::check_api_error("code:160"), Err("API点数不足，请充值"));
    assert_eq!(OpenApiProvider::check_api_error("code:300"), Err("请求IP不在Token白名单内"));
    assert_eq!(OpenApiProvider::check_api_error("code:400"), Err("接口维护中，请稍后重试"));
}

#[test]
fn registry_with_defaults_has_provider() {
    let reg = LyricsProviderRegistry::with_defaults();
    assert!(!reg.has_token());
}

#[test]
fn registry_set_token() {
    let mut reg = LyricsProviderRegistry::with_defaults();
    reg.set_token("abc123".into());
    assert!(reg.has_token());
    assert_eq!(reg.get_token(), Some("abc123"));
}

#[test]
fn registry_clear_token() {
    let mut reg = LyricsProviderRegistry::with_defaults();
    reg.set_token("abc123".into());
    reg.set_token("".into());
    assert!(!reg.has_token());
}

#[test]
fn registry_trims_token_and_finds_provider() {
    let mut reg = LyricsProviderRegistry::with_defaults();
    reg.set_token("  tok  ".into());
    assert_eq!(reg.get_token(), Some("tok"));
    assert_eq!(reg.provider_index("http://openapi.52vmy.cn"), Some(0));
    assert_eq!(reg.provider_index("nope"), None);
    let empty = LyricsProviderRegistry::new();
    assert!(empty.request_token().is_err());
    assert_eq!(reg.request_token(), Ok("tok".to_string()));
}

#[test]
fn fetch_request_refuses_foreign_keys() {
    assert_eq!(OpenApiProvider::fetch_request("openapi:3:x"), Ok((3, "x".to_string())));
    assert_eq!(
        OpenApiProvider::fetch_request("lrclib:1"),
        Err("Invalid lyrics key: lrclib:1".to_string())
    );
}

#[test]
fn fetch_result_reads_lyrics_or_error() {
    assert!(matches!(OpenApiProvider::fetch_result("code:110"), Some(Err(_))));
    assert!(matches!(OpenApiProvider::fetch_result("no lyrics"), Some(Ok(None))));
    let lrc = OpenApiProvider::fetch_result("[00:01.00]hi").unwrap().unwrap().unwrap();
    assert_eq!(lrc.lines[0].text, "hi");
    let list = OpenApiProvider::search_result(r#"["a - b"]"#, "b").unwrap();
    assert_eq!(list[0].title, "b");
    assert_eq!(OpenApiProvider::lrc_url(), "http://openapi.52vmy.cn/api/music/kg/lrc");
}

fn result(id: &str) -> LyricSearchResult {
    LyricSearchResult {
        id: id.to_string(),
        title: String::new(),
        artist: String::new(),
        album: None,
        duration_ms: None,
        source: String::new(),
    }
}

#[test]
fn failover_takes_first_nonempty_answer_truncated() {
    assert!(failover_step(None, 5).is_none());
    assert!(failover_step(Some(Vec::new()), 5).is_none());
    let got = failover_step(Some(vec![result("a"), result("b"), result("c")]), 2).unwrap();
    assert_eq!(got.len(), 2);
    assert_eq!(got[1].id, "b");
}

#[test]
fn entries_from_parsed_values_are_numbered_from_one() {
    let arr = vec!["歌手A - 歌名".to_string(), "只有歌名".to_string()];
    let r = OpenApiProvider::entries_from_array(&arr, "kw");
    assert_eq!(r.len(), 2);
    assert_eq!(r[0].id, "openapi:1:kw");
    assert_eq!(r[0].title, "歌名");
    assert_eq!(r[0].artist, "歌手A");
    assert_eq!(r[1].id, "openapi:2:kw");
    assert_eq!(r[1].title, "只有歌名");
    let items = vec![None, Some("B - T".to_string())];
    let r = OpenApiProvider::entries_from_data(&items, "kw");
    assert_eq!(r.len(), 1);
    assert_eq!(r[0].id, "openapi:2:kw");
    assert_eq!(r[0].title, "T");
    assert_eq!(r[0].artist, "B");
}

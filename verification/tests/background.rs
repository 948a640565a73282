use sleepy_launcher::background::{
    check_img_file, digest_matches, get_img_hash_from_uri, Background, BackgroundError, BackgroundFile,
    BackgroundSpec, PixbufFormatInfo, StoredPictures,
};
use sleepy_launcher::background::gtk_webp_image_supported;
use sleepy_launcher::json::{parse_json, Json};

const HELLO_MD5: &str = "5eb63bbbe01eeed093cb22bb8f5acdc3";

fn api(text: &str) -> Json {
    parse_json(text.as_bytes()).expect("valid JSON")
}

fn game(biz: &str, backgrounds: &str) -> String {
    format!(r#"{{"game":{{"id":"1","biz":"{biz}"}},"backgrounds":{backgrounds}}}"#)
}

fn games(list: &[String]) -> String {
    format!(r#"{{"retcode":0,"data":{{"game_info_list":[{}]}}}}"#, list.join(","))
}

#[test]
fn hash_is_file_name_up_to_underscore() {
    assert_eq!(
        get_img_hash_from_uri("https://example.com/a/b/0123abcd_background.webp"),
        "0123abcd"
    );
    assert_eq!(get_img_hash_from_uri("https://example.com/a/plain.png"), "plain.png");
    assert_eq!(get_img_hash_from_uri("no-slash_here"), "no-slash");
    assert_eq!(get_img_hash_from_uri(""), "");
    assert_eq!(get_img_hash_from_uri("https://example.com/dir_x/"), "");
}

#[test]
fn background_from_uri_keeps_uri_and_hash() {
    let b = Background::from_uri("https://cdn/x/abc_1.png".to_string());
    assert_eq!(b.uri, "https://cdn/x/abc_1.png");
    assert_eq!(b.hash, "abc");
}

#[test]
fn from_json_picks_last_background_of_first_nap_game() {
    let body = games(&[
        game("hk4e_global", r#"[{"background":{"url":"https://x/other_1.png"}}]"#),
        game(
            "nap_global",
            r#"[{"background":{"url":"https://x/old_1.png"}},
                {"type":"BACKGROUND_TYPE_NORMAL","background":{"url":"https://x/new_1.png"}}]"#,
        ),
        game("nap_cn", r#"[{"background":{"url":"https://x/cn_1.png"}}]"#),
    ]);
    match BackgroundSpec::background_info_from_body(body.as_bytes()) {
        Ok(BackgroundSpec::Normal { background }) => {
            assert_eq!(background.uri, "https://x/new_1.png");
            assert_eq!(background.hash, "new");
        }
        other => panic!("unexpected {:?}", other),
    }
}

#[test]
fn from_json_video_background() {
    let body = games(&[game(
        "nap_global",
        r#"[{"type":"BACKGROUND_TYPE_VIDEO","background":{"url":"https://x/bg_1.png"},
             "video":{"url":"https://x/vid_1.webm"},"theme":{"url":"https://x/theme_1.png"}}]"#,
    )]);
    match BackgroundSpec::from_json(&api(&body)) {
        Ok(spec @ BackgroundSpec::Video { .. }) => {
            if let BackgroundSpec::Video { background, video, overlay } = &spec {
                assert_eq!(background.hash, "bg");
                assert_eq!(video.uri, "https://x/vid_1.webm");
                assert_eq!(video.hash, "vid");
                assert_eq!(overlay.uri, "https://x/theme_1.png");
                assert_eq!(overlay.hash, "theme");
            }
            assert_eq!(spec.background().uri, "https://x/bg_1.png");
        }
        other => panic!("unexpected {:?}", other),
    }
}

#[test]
fn from_json_on_hand_built_value() {
    let entry = Json::Object(
        vec!["background".to_string()],
        vec![Json::Object(vec!["url".to_string()], vec![Json::Str("https://x/h_1.png".to_string())])],
    );
    let game = Json::Object(
        vec!["game".to_string(), "backgrounds".to_string()],
        vec![
            Json::Object(vec!["biz".to_string()], vec![Json::Str("nap_x".to_string())]),
            Json::Array(vec![entry]),
        ],
    );
    let value = Json::Object(
        vec!["data".to_string()],
        vec![Json::Object(vec!["game_info_list".to_string()], vec![Json::Array(vec![game])])],
    );
    match BackgroundSpec::from_json(&value) {
        Ok(BackgroundSpec::Normal { background }) => assert_eq!(background.hash, "h"),
        other => panic!("unexpected {:?}", other),
    }
}

#[test]
fn from_json_errors() {
    let err = |body: &str| BackgroundSpec::background_info_from_body(body.as_bytes()).unwrap_err();
    assert_eq!(err(r#"{"data":{}}"#), BackgroundError::GamesNotListed);
    assert_eq!(err(r#"{"data":{"game_info_list":{}}}"#), BackgroundError::GamesNotListed);
    assert_eq!(err(&games(&[game("hk4e", "[]")])), BackgroundError::GameNotFound);
    assert_eq!(
        err(r#"{"data":{"game_info_list":[{"game":{"biz":5}}]}}"#),
        BackgroundError::GameNotFound
    );
    assert_eq!(err(&games(&[game("nap_x", "null")])), BackgroundError::MissingPictureUrl);
    assert_eq!(err(&games(&[game("nap_x", "[]")])), BackgroundError::MissingPictureUrl);
    assert_eq!(
        err(&games(&[game(
            "nap_x",
            r#"[{"type":"BACKGROUND_TYPE_VIDEO","background":{"url":"https://x/a_1"},"video":{"url":"https://x/v_1"}}]"#
        )])),
        BackgroundError::MissingPictureUrl
    );
    for body in ["not json", "", "{\"data\":"] {
        let serde_message = serde_json::from_slice::<serde_json::Value>(body.as_bytes())
            .unwrap_err()
            .to_string();
        let e = err(body);
        assert_eq!(e, BackgroundError::InvalidJson(serde_message.clone()));
        assert_eq!(e.message(), serde_message);
    }
    assert_eq!(
        BackgroundError::GameNotFound.message(),
        "Failed to find the game in the backgrounds API"
    );
}

#[test]
fn parse_json_reads_values() {
    match parse_json(br#"{"a":[1,true,null,"s"]}"#) {
        Ok(Json::Object(keys, values)) => {
            assert_eq!(keys, vec!["a".to_string()]);
            match &values[0] {
                Json::Array(items) => {
                    assert!(matches!(&items[0], Json::Number(n) if n == "1"));
                    assert!(matches!(&items[1], Json::Bool(true)));
                    assert!(matches!(&items[2], Json::Null));
                    assert!(matches!(&items[3], Json::Str(s) if s == "s"));
                }
                other => panic!("unexpected {:?}", other),
            }
        }
        other => panic!("unexpected {:?}", other),
    }
    assert_eq!(
        parse_json(b"{").unwrap_err(),
        serde_json::from_slice::<serde_json::Value>(b"{").unwrap_err().to_string()
    );
}

#[test]
fn check_img_file_compares_md5_ignoring_case() {
    assert!(check_img_file(Some(b"hello world"), HELLO_MD5));
    assert!(check_img_file(Some(b"hello world"), &HELLO_MD5.to_uppercase()));
    assert!(!check_img_file(Some(b"hello world!"), HELLO_MD5));
    assert!(!check_img_file(None, HELLO_MD5));
    assert!(!check_img_file(Some(b"hello world"), "5eb63bbb"));
}

#[test]
fn download_plan_lists_stale_files_in_order() {
    let current = Background { uri: format!("https://x/{}_1.png", HELLO_MD5), hash: HELLO_MD5.to_string() };
    let stale = Background { uri: "https://x/ffff_1.png".to_string(), hash: "ffff".to_string() };
    assert!(!current.download(Some(b"hello world")));
    assert!(current.download(None));
    assert!(stale.download(Some(b"hello world")));

    let stored = StoredPictures {
        background: Some(b"hello world".to_vec()),
        overlay: Some(b"hello world".to_vec()),
        video: None,
    };
    let normal = BackgroundSpec::Normal { background: current.clone() };
    assert_eq!(normal.download(&stored), vec![]);
    let video = BackgroundSpec::Video { background: stale.clone(), video: current.clone(), overlay: current.clone() };
    assert_eq!(video.download(&stored), vec![BackgroundFile::Background, BackgroundFile::Video]);
    let video2 = BackgroundSpec::Video { background: current.clone(), video: stale.clone(), overlay: stale.clone() };
    assert_eq!(video2.download(&stored), vec![BackgroundFile::Overlay, BackgroundFile::Video]);
}

#[test]
fn webp_format_by_name_or_extension() {
    let fmt = |name: Option<&str>, exts: &[&str]| PixbufFormatInfo {
        name: name.map(str::to_string),
        extensions: exts.iter().map(|e| e.to_string()).collect(),
    };
    assert!(gtk_webp_image_supported(&[fmt(Some("png"), &["png"]), fmt(Some("WebP"), &[])]));
    assert!(gtk_webp_image_supported(&[fmt(None, &["jpg", "WEBP"])]));
    assert!(!gtk_webp_image_supported(&[fmt(Some("webp2"), &["webpx"]), fmt(None, &[])]));
    assert!(!gtk_webp_image_supported(&[]));
}

#[test]
fn digest_matches_hex_ignoring_case() {
    let digest = [0x5eu8, 0xb6, 0x3b, 0xbb, 0xe0, 0x1e, 0xee, 0xd0, 0x93, 0xcb, 0x22, 0xbb, 0x8f, 0x5a, 0xcd, 0xc3];
    assert!(digest_matches(&digest, HELLO_MD5));
    assert!(digest_matches(&digest, "5EB63BBBE01EEED093CB22BB8F5ACDC3"));
    assert!(!digest_matches(&digest[..15], HELLO_MD5));
    assert!(digest_matches(&[0x0a, 0xff], "0aff"));
    assert!(!digest_matches(&[0x0a, 0xff], "aff"));
    assert!(digest_matches(&[], ""));
}

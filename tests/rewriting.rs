use potd::engine::{clamp_target_width, MAX_TARGET_WIDTH};
use potd::rewrite::{replace_width, rewrite_url};
use potd::{Engine, EngineBuilder, ExtensionWhitelist};

const THUMB_DIR: &str = "https://upload.wikimedia.org/wikipedia/commons/thumb/a/ab/Example.jpg/";

#[test]
fn width_token_is_replaced_and_path_kept() {
    let engine = Engine::new(1920);
    let url = format!("{}640px-Example.jpg", THUMB_DIR);
    assert_eq!(engine.rewrite(&url), Some(format!("{}1920px-Example.jpg", THUMB_DIR)));
}

#[test]
fn file_name_without_width_token_is_dropped() {
    let engine = Engine::new(1920);
    assert_eq!(engine.rewrite("https://example.org/images/Example.jpg"), None);
    assert_eq!(replace_width("https://example.org/images/Example.jpg", 1920), None);
}

#[test]
fn extension_outside_the_list_is_dropped() {
    let engine = Engine::new(1920);
    assert_eq!(engine.rewrite("https://example.org/thumb/640px-Example.png"), None);
    // the width token alone would have been rewritten
    assert_eq!(
        replace_width("https://example.org/thumb/640px-Example.png", 1920),
        Some("https://example.org/thumb/1920px-Example.png".to_string())
    );
}

#[test]
fn extension_match_ignores_case() {
    let list = ExtensionWhitelist::new_with_default();
    assert!(list.is_whitelisted("IMAGE.JPG"));
    assert!(list.is_whitelisted("Photo.JPEG"));
    assert!(!list.is_whitelisted("IMAGE.PNG"));
    let engine = Engine::new(800);
    assert_eq!(
        engine.rewrite("https://example.org/t/640px-IMAGE.JPG"),
        Some("https://example.org/t/800px-IMAGE.JPG".to_string())
    );
}

#[test]
fn lowered_names_match_exactly() {
    let list = ExtensionWhitelist::new_with_default();
    assert!(list.matches_lowered("image.jpg"));
    assert!(list.matches_lowered("image.jpeg"));
    assert!(!list.matches_lowered("IMAGE.JPG"));
    assert!(!list.matches_lowered("image.jpg.txt"));
    assert!(!list.matches_lowered(""));
}

#[test]
fn rewriting_twice_is_stable() {
    let engine = Engine::new(1280);
    let once = engine.rewrite("https://example.org/a/b/320px-Sunset.jpeg").unwrap();
    assert_eq!(once, "https://example.org/a/b/1280px-Sunset.jpeg");
    assert_eq!(engine.rewrite(&once), Some(once.clone()));
}

#[test]
fn later_separators_are_kept_verbatim() {
    assert_eq!(
        replace_width("https://example.org/x/640px-Apx-Bpx-C.jpg", 1024),
        Some("https://example.org/x/1024px-Apx-Bpx-C.jpg".to_string())
    );
}

#[test]
fn separator_in_directory_is_not_a_width_token() {
    assert_eq!(replace_width("https://example.org/640px-dir/Example.jpg", 1024), None);
}

#[test]
fn url_without_slash_is_a_bare_file_name() {
    assert_eq!(replace_width("640px-Cat.jpg", 1024), Some("1024px-Cat.jpg".to_string()));
    assert_eq!(replace_width("px-Cat.jpg", 7), Some("7px-Cat.jpg".to_string()));
    assert_eq!(replace_width("", 7), None);
}

#[test]
fn zero_width_is_written_as_given() {
    assert_eq!(replace_width("a/640px-Cat.jpg", 0), Some("a/0px-Cat.jpg".to_string()));
}

#[test]
fn custom_list_replaces_the_default() {
    let list = ExtensionWhitelist::new(vec![".png"]);
    assert_eq!(
        rewrite_url("https://e.org/t/640px-Map.PNG", 300, &list),
        Some("https://e.org/t/300px-Map.PNG".to_string())
    );
    assert_eq!(rewrite_url("https://e.org/t/640px-Map.jpg", 300, &list), None);
    let engine = EngineBuilder::new(300).extension_whitelist(ExtensionWhitelist::new(vec![".png"])).build();
    assert_eq!(engine.rewrite("https://e.org/t/640px-Map.jpg"), None);
    assert!(engine.extension_whitelist().is_whitelisted("x.png"));
}

#[test]
fn default_list_is_jpg_and_jpeg() {
    let list = ExtensionWhitelist::default();
    assert!(list.is_whitelisted("a.jpg"));
    assert!(list.is_whitelisted("a.jpeg"));
    assert!(!list.is_whitelisted("a.gif"));
}

#[test]
fn width_is_clamped_to_4k() {
    assert_eq!(clamp_target_width(5000), (MAX_TARGET_WIDTH, true));
    assert_eq!(clamp_target_width(3840), (3840, false));
    assert_eq!(clamp_target_width(1), (1, false));
    assert_eq!(Engine::new(10_000).target_width(), 3840);
    assert_eq!(Engine::new(640).target_width(), 640);
    assert_eq!(
        Engine::new(usize::MAX).rewrite("u/640px-A.jpg"),
        Some("u/3840px-A.jpg".to_string())
    );
}

#[test]
fn rewrite_all_keeps_order_and_drops_skipped() {
    let engine = Engine::new(100);
    let raws = vec![
        "h/1px-A.jpg".to_string(),
        "h/B.jpg".to_string(),
        "h/2px-C.png".to_string(),
        "h/3px-D.JPEG".to_string(),
    ];
    assert_eq!(
        engine.rewrite_all(&raws),
        vec!["h/100px-A.jpg".to_string(), "h/100px-D.JPEG".to_string()]
    );
    assert!(engine.rewrite_all(&Vec::new()).is_empty());
}

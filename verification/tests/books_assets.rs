use grafium_core::books::assets::{
    epub_asset_path, hex_digest, href_decodes_exec, local_asset_path, sanitize_asset_name,
    short_hash_bytes, unique_name, AssetCollector,
};

fn chars(s: &str) -> Vec<char> {
    s.chars().collect()
}

fn text(v: &[char]) -> String {
    v.iter().collect()
}

#[test]
fn hex_digest_writes_two_lower_case_digits_per_byte() {
    assert_eq!(hex_digest(&[0x00, 0x0f, 0xa0, 0xff]), "000fa0ff");
    assert_eq!(hex_digest(&[]), "");
}

#[test]
fn short_hash_is_the_start_of_the_sha256_digest() {
    assert_eq!(short_hash_bytes(b"abc"), "ba7816bf");
    assert_eq!(short_hash_bytes(b""), "e3b0c442");
}

#[test]
fn sanitize_asset_name_keeps_the_last_component_and_safe_characters() {
    assert_eq!(sanitize_asset_name("images/My Photo.PNG", b"x"), "My-Photo.PNG");
    assert_eq!(sanitize_asset_name("dir\\sub\\a b.jpg", b"x"), "a-b.jpg");
    assert_eq!(sanitize_asset_name("..--weird$$name--..", b"x"), "weirdname");
    assert_eq!(sanitize_asset_name("a/b/", b"x"), "asset-2d711642");
    assert_eq!(sanitize_asset_name("", b"abc"), "asset-ba7816bf");
}

#[test]
fn sanitize_asset_name_cuts_long_names() {
    let long = "a".repeat(130);
    assert_eq!(sanitize_asset_name(&long, b"x"), "a".repeat(120));
}

#[test]
fn unique_name_numbers_taken_names_before_the_extension() {
    let mut used: Vec<String> = Vec::new();
    assert_eq!(text(&unique_name(&chars("a.png"), &mut used)), "a.png");
    assert_eq!(text(&unique_name(&chars("a.png"), &mut used)), "a-2.png");
    assert_eq!(text(&unique_name(&chars("a.png"), &mut used)), "a-3.png");
    assert_eq!(text(&unique_name(&chars("README"), &mut used)), "README");
    assert_eq!(text(&unique_name(&chars("README"), &mut used)), "README-2");
    assert_eq!(text(&unique_name(&chars(".hidden"), &mut used)), ".hidden");
    assert_eq!(text(&unique_name(&chars(".hidden"), &mut used)), ".hidden-2");
    assert_eq!(used.len(), 7);
}

#[test]
fn unique_name_skips_numbers_already_taken() {
    let mut used: Vec<String> = vec!["x.jpg".to_string(), "x-2.jpg".to_string()];
    assert_eq!(text(&unique_name(&chars("x.jpg"), &mut used)), "x-3.jpg");
}

#[test]
fn collector_gives_every_asset_its_own_path() {
    let mut c = AssetCollector::new();
    assert_eq!(c.add_bytes("OEBPS/images/cover.jpg", vec![1, 2, 3]), "assets/cover.jpg");
    assert_eq!(c.add_bytes("other/cover.jpg", vec![4]), "assets/cover-2.jpg");
    assert_eq!(c.add_bytes("???", vec![5]), format!("assets/asset-{}", short_hash_bytes(&[5])));
    let assets = c.into_assets();
    assert_eq!(assets.len(), 3);
    assert_eq!(assets[1].relative_path, "assets/cover-2.jpg");
    assert_eq!(assets[1].bytes, vec![4]);
}

#[test]
fn local_asset_paths_stay_inside_the_source_folder() {
    assert_eq!(local_asset_path("data:image/png;base64,AAAA"), None);
    assert_eq!(local_asset_path("http://example.com/a.png"), None);
    assert_eq!(local_asset_path("https://example.com/a.png"), None);
    assert_eq!(local_asset_path("img/a%20b.png#frag"), Some("img/a b.png".to_string()));
    assert_eq!(local_asset_path("../secret.png"), None);
    assert_eq!(local_asset_path("a/../b.png"), None);
    assert_eq!(local_asset_path("/etc/passwd"), None);
    assert_eq!(local_asset_path("  #only"), None);
}

#[test]
fn epub_asset_paths_resolve_against_the_chapter_folder() {
    assert_eq!(
        epub_asset_path("OEBPS/text", "../images/a%20b.png"),
        Some("OEBPS/images/a b.png".to_string())
    );
    assert_eq!(epub_asset_path("OEBPS", "https://x/y.png"), None);
    assert!(href_decodes_exec("img/a%20b.png"));
}

use atuin_web::assets::serve_asset;

#[test]
fn asset_media_types() {
    let css = serve_asset("css/app.css", true, false).ok().unwrap();
    assert_eq!(css.content_type, "text/css");
    assert_eq!(css.cache_control, "public, max-age=31536000, immutable");
    let js = serve_asset("js/decrypt.js", true, true).ok().unwrap();
    assert!(js.content_type.contains("javascript"));
    assert_eq!(js.cache_control, "no-cache");
    let icon = serve_asset("favicon.ico", true, false).ok().unwrap();
    assert_eq!(icon.content_type, "image/x-icon");
    let unknown = serve_asset("data/blob", true, false).ok().unwrap();
    assert_eq!(unknown.content_type, "application/octet-stream");
}

#[test]
fn missing_asset_is_not_found() {
    assert_eq!(serve_asset("nonexistent.xyz", false, false).err(), Some(404));
}

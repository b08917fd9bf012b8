use cdt_api::image::{
    asset_url_for_path, empty_data_uri, format_data_uri, hex_prefix8, image_cache_file_name, media_type_to_ext,
    plan_image_asset, ImageAssetPlan,
};

#[test]
fn media_type_to_ext_known_and_unknown() {
    assert_eq!(media_type_to_ext("image/png"), "png");
    assert_eq!(media_type_to_ext("image/jpeg"), "jpg");
    assert_eq!(media_type_to_ext("image/gif"), "gif");
    assert_eq!(media_type_to_ext("image/webp"), "webp");
    assert_eq!(media_type_to_ext("application/x-future"), "bin");
}

#[test]
fn media_type_to_ext_jpg_alias_and_svg() {
    assert_eq!(media_type_to_ext("image/jpg"), "jpg");
    assert_eq!(media_type_to_ext("image/svg+xml"), "svg");
    assert_eq!(media_type_to_ext("IMAGE/PNG"), "bin");
}

#[test]
fn empty_data_uri_is_octet_stream_placeholder() {
    assert_eq!(empty_data_uri(), "data:application/octet-stream;base64,");
}

#[test]
fn format_data_uri_joins_type_and_payload() {
    assert_eq!(format_data_uri("image/png", "AAAA"), "data:image/png;base64,AAAA");
}

#[test]
fn hex_prefix8_formats_two_lowercase_digits_per_byte() {
    assert_eq!(hex_prefix8(&[0x00, 0x0f, 0xab, 0xff]), "000fabff");
    assert_eq!(hex_prefix8(&[1, 2, 3, 4, 5, 6, 7, 8, 9, 10]), "0102030405060708");
}

#[test]
fn image_cache_file_name_uses_sha256_prefix() {
    // SHA-256 of the empty input starts e3b0c44298fc1c14.
    assert_eq!(image_cache_file_name("image/png", &[]), "e3b0c44298fc1c14.png");
    // SHA-256 of "abc" starts ba7816bf8f01cfea.
    assert_eq!(image_cache_file_name("image/gif", b"abc"), "ba7816bf8f01cfea.gif");
}

#[test]
fn asset_url_turns_backslashes_into_slashes() {
    assert_eq!(asset_url_for_path("C:\\Users\\me\\a.png"), "asset://localhost/C:/Users/me/a.png");
    assert_eq!(asset_url_for_path("/tmp/a.png"), "asset://localhost//tmp/a.png");
}

#[test]
fn plan_image_asset_falls_back_inline_on_invalid_base64() {
    match plan_image_asset("/cache", "image/png", "not base64!!") {
        ImageAssetPlan::Inline(uri) => assert_eq!(uri, "data:image/png;base64,not base64!!"),
        other => panic!("expected inline, got {other:?}"),
    }
}

#[test]
fn plan_image_asset_addresses_file_by_content() {
    // "YWJj" is base64 for "abc".
    match plan_image_asset("/cache", "image/jpeg", "YWJj") {
        ImageAssetPlan::Cached { file_path, bytes, url } => {
            assert_eq!(bytes, b"abc".to_vec());
            assert_eq!(file_path, "/cache/ba7816bf8f01cfea.jpg");
            assert_eq!(url, "asset://localhost//cache/ba7816bf8f01cfea.jpg");
        }
        other => panic!("expected cached, got {other:?}"),
    }
}

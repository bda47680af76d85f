use rustic_images::catalog::{BucketObject, CatalogBuilder, ObjectTag};
use rustic_images::config::{get_env_var_value_or_default, setting_value};
use rustic_images::cors::{BodyKind, CORS};
use rustic_images::signer::UrlSigner;
use rustic_images::upload::{
    multipart_boundary, read_upload_body, read_upload_form, tag_set_from_pairs, upload_tag_pairs, UploadError,
};

fn part(name: &str, data: &[u8]) -> (String, Vec<u8>) {
    (name.to_string(), data.to_vec())
}

#[test]
fn upload_then_catalog_round_trip() {
    let pairs = upload_tag_pairs("cat1,cat2".to_string());
    assert_eq!(pairs, vec![("tags".to_string(), "cat1,cat2".to_string())]);
    let stored: Vec<ObjectTag> = tag_set_from_pairs(pairs);
    let listing = vec![BucketObject {
        key: Some("a.png".to_string()),
        size: Some(4),
        e_tag: None,
    }];
    let mut signer =
        UrlSigner::new("eu-west-1", "b".to_string(), "k".to_string(), "s".to_string());
    let mut builder = CatalogBuilder::new(Some(listing), "cat1".to_string());
    let name = builder.next_request().unwrap();
    assert_eq!(name, "a.png");
    builder.receive_tags(stored, &mut signer);
    assert!(builder.next_request().is_none());
    let contents = builder.finish().unwrap();
    assert_eq!(contents.data.len(), 1);
    assert_eq!(contents.data[0].file_name, "a.png");
    assert_eq!(contents.data[0].tags, "cat1,cat2");
}

#[test]
fn tag_pairs_become_tags_in_order() {
    let tags = tag_set_from_pairs(vec![
        ("a".to_string(), "1".to_string()),
        ("b".to_string(), "2".to_string()),
    ]);
    assert_eq!(tags.len(), 2);
    assert_eq!((tags[0].key.as_str(), tags[0].value.as_str()), ("a", "1"));
    assert_eq!((tags[1].key.as_str(), tags[1].value.as_str()), ("b", "2"));
}

#[test]
fn boundary_rules() {
    let params = vec![
        ("charset".to_string(), "utf-8".to_string()),
        ("boundary".to_string(), "XyZ".to_string()),
        ("boundary".to_string(), "second".to_string()),
    ];
    assert_eq!(multipart_boundary(true, &params).unwrap(), "XyZ");
    assert_eq!(multipart_boundary(false, &params), Err(UploadError::NotFormData));
    assert_eq!(
        multipart_boundary(true, &vec![("charset".to_string(), "utf-8".to_string())]),
        Err(UploadError::MissingBoundary)
    );
}

#[test]
fn form_fields_read_by_name() {
    let form = read_upload_form(vec![
        part("fileName", b"first.png"),
        part("tags", b"sea,sky"),
        part("other", &[0xff, 0xfe]),
        part("file", &[1, 2, 3]),
        part("fileName", b"x\xc3\xa9.png"),
    ])
    .unwrap();
    assert_eq!(form.file_name, "x\u{e9}.png");
    assert_eq!(form.tags, "sea,sky");
    assert_eq!(form.file, vec![1, 2, 3]);
}

#[test]
fn form_missing_fields_are_empty() {
    let form = read_upload_form(vec![]).unwrap();
    assert_eq!(form.file_name, "");
    assert_eq!(form.tags, "");
    assert!(form.file.is_empty());
}

#[test]
fn form_rejects_non_utf8_text() {
    let bad = read_upload_form(vec![part("tags", &[0xc3]), part("tags", b"ok")]);
    assert!(matches!(bad, Err(UploadError::FieldNotUtf8)));
    let raw_file = read_upload_form(vec![part("file", &[0xc3, 0x28])]).unwrap();
    assert_eq!(raw_file.file, vec![0xc3, 0x28]);
}

#[test]
fn cors_headers_for_json_plain_and_options() {
    let cors = CORS::new("http://localhost:3000".to_string());
    let json = cors.on_response(false, BodyKind::Json);
    assert_eq!(json.headers.len(), 4);
    assert_eq!(
        json.headers[0],
        ("Access-Control-Allow-Origin".to_string(), "http://localhost:3000".to_string())
    );
    assert_eq!(
        json.headers[1],
        ("Access-Control-Allow-Methods".to_string(), "GET, POST, OPTIONS".to_string())
    );
    assert_eq!(json.headers[2], ("Access-Control-Allow-Headers".to_string(), "Content-Type".to_string()));
    assert_eq!(json.headers[3], ("Access-Control-Allow-Credentials".to_string(), "true".to_string()));
    assert!(!json.empty_plain_body);
    assert_eq!(cors.on_response(false, BodyKind::Plain).headers.len(), 4);
    let options = cors.on_response(true, BodyKind::Other);
    assert_eq!(options.headers.len(), 4);
    assert!(options.empty_plain_body);
    let other = cors.on_response(false, BodyKind::Other);
    assert!(other.headers.is_empty());
    assert!(!other.empty_plain_body);
}

#[test]
fn settings_fall_back_in_order() {
    assert_eq!(get_env_var_value_or_default(Some("v".to_string()), Some("d".to_string())), "v");
    assert_eq!(get_env_var_value_or_default(None, Some("d".to_string())), "d");
    assert_eq!(get_env_var_value_or_default(None, None), "");
    assert_eq!(setting_value(Some("x".to_string()), Some("e".to_string())), "x");
    assert_eq!(setting_value(None, Some("e".to_string())), "e");
    assert_eq!(setting_value(None, None), "");
}

fn multipart_body(parts: &[(&str, &[u8])]) -> Vec<u8> {
    let mut body = Vec::new();
    for (name, data) in parts {
        body.extend_from_slice(b"--XyZ\r\n");
        body.extend_from_slice(
            format!("Content-Disposition: form-data; name=\"{}\"\r\n\r\n", name).as_bytes(),
        );
        body.extend_from_slice(data);
        body.extend_from_slice(b"\r\n");
    }
    body.extend_from_slice(b"--XyZ--\r\n");
    body
}

#[test]
fn body_is_split_into_form_fields() {
    let body = multipart_body(&[
        ("fileName", b"a.png"),
        ("tags", b"cat1,cat2"),
        ("file", &[1, 2, 3]),
    ]);
    let form = read_upload_body(body, "XyZ").unwrap();
    assert_eq!(form.file_name, "a.png");
    assert_eq!(form.tags, "cat1,cat2");
    assert_eq!(form.file, vec![1, 2, 3]);
}

#[test]
fn body_with_non_utf8_name_is_refused() {
    let body = multipart_body(&[("fileName", &[0xff])]);
    assert!(matches!(read_upload_body(body, "XyZ"), Err(UploadError::FieldNotUtf8)));
}

#[test]
fn truncated_body_is_malformed() {
    let body = b"--XyZ\r\nContent-Disposition: form-data; name=\"tags\"\r\n".to_vec();
    assert!(matches!(read_upload_body(body, "XyZ"), Err(UploadError::MalformedBody)));
}

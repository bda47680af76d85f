use rustic_images::catalog::{
    build_entry, select_tag_string, BucketContents, BucketObject, CatalogBuilder, ObjectTag,
    S3Object, S3ObjectError,
};
use rustic_images::signer::UrlSigner;

fn object(key: Option<&str>, size: Option<i64>) -> BucketObject {
    BucketObject {
        key: key.map(|k| k.to_string()),
        size,
        e_tag: Some(format!("etag-{}", key.unwrap_or("none"))),
    }
}

fn tag(key: &str, value: &str) -> ObjectTag {
    ObjectTag { key: key.to_string(), value: value.to_string() }
}

fn signer() -> UrlSigner {
    UrlSigner::new("us-east-1", "images".to_string(), "AKIDEXAMPLE".to_string(), "SECRET".to_string())
}

/// Drives a catalog over a listing, answering tag requests from `tags_of`.
/// Returns the result, the names whose tags were fetched, and how many URLs
/// were minted.
fn run(
    listing: Option<Vec<BucketObject>>,
    term: &str,
    tags_of: &dyn Fn(&str) -> Vec<ObjectTag>,
) -> (Result<BucketContents, S3ObjectError>, Vec<String>, usize) {
    let mut signer = signer();
    let mut builder = CatalogBuilder::new(listing, term.to_string());
    let mut fetched = Vec::new();
    let mut minted = 0;
    while let Some(name) = builder.next_request() {
        fetched.push(name.clone());
        builder.receive_tags(tags_of(&name), &mut signer);
    }
    assert!(builder.is_done());
    let result = builder.finish();
    if let Ok(contents) = &result {
        minted = contents.data.iter().filter(|o| !o.presigned_url.is_empty()).count();
    }
    (result, fetched, minted)
}

fn scenario_listing() -> Vec<BucketObject> {
    vec![object(Some("x.jpg"), Some(100)), object(Some("folder/"), Some(0))]
}

fn scenario_tags(name: &str) -> Vec<ObjectTag> {
    if name == "x.jpg" {
        vec![tag("tags", "nature")]
    } else {
        vec![]
    }
}

fn names(contents: &BucketContents) -> Vec<String> {
    contents.data.iter().map(|o| o.file_name.clone()).collect()
}

#[test]
fn scenario_empty_term_lists_file_only() {
    let (result, fetched, _) = run(Some(scenario_listing()), "", &scenario_tags);
    let contents = result.unwrap();
    assert_eq!(names(&contents), vec!["x.jpg".to_string()]);
    assert!(!contents.data[0].presigned_url.is_empty());
    assert_eq!(contents.data[0].tags, "nature");
    assert_eq!(contents.data[0].e_tag, "etag-x.jpg");
    assert_eq!(fetched, vec!["x.jpg".to_string()]);
}

#[test]
fn scenario_unmatched_term_lists_nothing() {
    let (result, _, minted) = run(Some(scenario_listing()), "urban", &scenario_tags);
    assert_eq!(result.unwrap().data.len(), 0);
    assert_eq!(minted, 0);
}

#[test]
fn scenario_matching_tag_term_lists_file() {
    let (result, _, _) = run(Some(scenario_listing()), "nature", &scenario_tags);
    assert_eq!(names(&result.unwrap()), vec!["x.jpg".to_string()]);
}

#[test]
fn unnamed_object_fails_for_every_term() {
    for term in ["", "x", "nature", "zzz"] {
        let listing = vec![
            object(Some("x.jpg"), Some(100)),
            object(None, Some(5)),
            object(Some("y.jpg"), Some(7)),
        ];
        let (result, fetched, _) = run(Some(listing), term, &scenario_tags);
        assert!(matches!(result, Err(S3ObjectError::FileWithNoName)));
        assert_eq!(fetched, vec!["x.jpg".to_string()]);
    }
}

#[test]
fn unnamed_folder_marker_is_skipped() {
    let listing = vec![object(None, Some(0)), object(None, None), object(Some("x.jpg"), Some(1))];
    let (result, _, _) = run(Some(listing), "", &scenario_tags);
    assert_eq!(names(&result.unwrap()), vec!["x.jpg".to_string()]);
}

#[test]
fn repeated_tags_key_fails() {
    let listing = vec![object(Some("a.png"), Some(3)), object(Some("b.png"), Some(3))];
    let tags = |name: &str| {
        if name == "a.png" {
            vec![tag("tags", "one"), tag("other", "x"), tag("tags", "two")]
        } else {
            vec![tag("tags", "fine")]
        }
    };
    let (result, fetched, _) = run(Some(listing), "", &tags);
    assert!(matches!(result, Err(S3ObjectError::MultipleTagsWithSameName)));
    assert_eq!(fetched, vec!["a.png".to_string()]);
}

#[test]
fn missing_listing_is_empty_catalog() {
    let (result, fetched, _) = run(None, "", &scenario_tags);
    assert_eq!(result.unwrap().data.len(), 0);
    assert!(fetched.is_empty());
    let (result, _, _) = run(Some(vec![]), "abc", &scenario_tags);
    assert_eq!(result.unwrap().data.len(), 0);
}

#[test]
fn filter_keeps_listing_order_and_mints_only_shown() {
    let listing = vec![
        object(Some("cat.png"), Some(1)),
        object(Some("dog.png"), Some(1)),
        object(Some("pics/"), None),
        object(Some("wildcat.jpg"), Some(1)),
        object(Some("bird.gif"), Some(-4)),
    ];
    let tags = |name: &str| match name {
        "dog.png" => vec![tag("tags", "pets,cat-friendly")],
        "bird.gif" => vec![tag("colour", "cat")],
        _ => vec![],
    };
    let (result, fetched, minted) = run(Some(listing), "cat", &tags);
    let contents = result.unwrap();
    assert_eq!(
        names(&contents),
        vec!["cat.png".to_string(), "dog.png".to_string(), "wildcat.jpg".to_string()]
    );
    assert_eq!(minted, 3);
    assert_eq!(fetched.len(), 4);
    assert!(contents.data.iter().all(|o| !o.is_hidden()));
}

#[test]
fn catalog_twice_same_names_and_tags() {
    let (first, _, _) = run(Some(scenario_listing()), "", &scenario_tags);
    let (second, _, _) = run(Some(scenario_listing()), "", &scenario_tags);
    let first = first.unwrap();
    let second = second.unwrap();
    assert_eq!(names(&first), names(&second));
    let tags = |c: &BucketContents| c.data.iter().map(|o| o.tags.clone()).collect::<Vec<_>>();
    assert_eq!(tags(&first), tags(&second));
}

#[test]
fn hidden_entry_gets_no_url() {
    let mut signer = signer();
    let obj = object(Some("a.png"), Some(10));
    let entry = build_entry(&obj, &vec![tag("tags", "sea")], "mountain", &mut signer).unwrap();
    assert!(entry.is_hidden());
    assert_eq!(entry.presigned_url, "");
    assert_eq!(entry.tags, "sea");
    let shown = build_entry(&obj, &vec![tag("tags", "sea")], "se", &mut signer).unwrap();
    assert!(!shown.is_hidden());
    assert!(shown.presigned_url.contains("a.png"));
    assert!(shown.presigned_url.starts_with("https://"));
}

#[test]
fn entry_without_key_or_etag() {
    let mut signer = signer();
    let none = BucketObject { key: None, size: Some(3), e_tag: None };
    assert!(matches!(build_entry(&none, &vec![], "", &mut signer), Err(S3ObjectError::FileWithNoName)));
    let no_etag = BucketObject { key: Some("f".to_string()), size: Some(3), e_tag: None };
    let entry = build_entry(&no_etag, &vec![], "", &mut signer).unwrap();
    assert_eq!(entry.e_tag, "");
    assert_eq!(entry.tags, "");
}

#[test]
fn tag_string_selection() {
    assert_eq!(select_tag_string(&vec![]).unwrap(), "");
    assert_eq!(select_tag_string(&vec![tag("x", "1"), tag("tags", "a,b")]).unwrap(), "a,b");
    assert_eq!(select_tag_string(&vec![tag("Tags", "no")]).unwrap(), "");
    assert_eq!(
        select_tag_string(&vec![tag("tags", "a"), tag("tags", "a")]),
        Err(S3ObjectError::MultipleTagsWithSameName)
    );
}

#[test]
fn matching_rules() {
    assert!(rustic_images::filter::matches("a.png", "", ""));
    assert!(rustic_images::filter::matches("a.png", "cat1,cat2", "cat2"));
    assert!(rustic_images::filter::matches("holiday.png", "", "day"));
    assert!(!rustic_images::filter::matches("holiday.png", "sea", "Day"));
    assert!(!rustic_images::filter::matches("a", "b", "ab"));
    assert!(rustic_images::filter::matches("abc", "", "abc"));
}

#[test]
fn entry_and_contents_constructors() {
    let o = S3Object::new("n".to_string(), "e".to_string(), "t".to_string(), "u".to_string(), true);
    assert!(o.is_hidden());
    assert_eq!(o.file_name, "n");
    assert_eq!(o.e_tag, "e");
    assert_eq!(o.tags, "t");
    assert_eq!(o.presigned_url, "u");
    assert_eq!(BucketContents::new(vec![o]).data.len(), 1);
    assert_eq!(BucketContents::empty_bucket().data.len(), 0);
}

#[test]
fn unknown_region_still_signs() {
    let mut signer =
        UrlSigner::new("nowhere-9", "images".to_string(), "AKID".to_string(), "S".to_string());
    let url = signer.get_presigned_url_for_file(&"k.png".to_string());
    assert!(url.contains("us-east-1") || url.contains("s3.amazonaws.com"));
    assert!(url.contains("X-Amz-Expires=1800"));
}

#[test]
fn known_region_is_used_for_signing() {
    let mut signer =
        UrlSigner::new("eu-west-1", "images".to_string(), "AKID".to_string(), "S".to_string());
    let url = signer.get_presigned_url_for_file(&"k.png".to_string());
    assert!(url.contains("eu-west-1"));
    assert!(url.contains("X-Amz-Expires=1800"));
    assert!(url.contains("X-Amz-Credential=AKID%2F"));
    assert!(url.contains("/images/k.png?"));
    assert!(!url.contains("us-east-1"));
}

#[test]
fn nested_key_url_names_bucket_and_key() {
    let mut signer = signer();
    let url = signer.get_presigned_url_for_file(&"albums/2020/sea.jpg".to_string());
    assert!(url.contains("/images/albums/2020/sea.jpg?"));
    assert!(url.contains("X-Amz-Credential=AKIDEXAMPLE%2F"));
}

#[test]
fn listing_entry_point_has_no_effect() {
    rustic_images::catalog::list_bucket_contents();
}

#[test]
fn escaped_key_is_percent_encoded_in_path() {
    let mut signer = signer();
    let url = signer.get_presigned_url_for_file(&"my photo+\u{e9}.png".to_string());
    assert!(url.contains("/images/my%20photo%2B%C3%A9.png?"));
    assert!(url.contains("%2Fus-east-1%2Fs3%2Faws4_request"));
}

#[test]
fn region_name_is_kept_or_falls_back() {
    let known = UrlSigner::new("eu-west-1", "b".to_string(), "k".to_string(), "s".to_string());
    assert_eq!(known.region_name(), "eu-west-1");
    let unknown = UrlSigner::new("", "b".to_string(), "k".to_string(), "s".to_string());
    assert_eq!(unknown.region_name(), "us-east-1");
    let mut signer =
        UrlSigner::new("eu-west-1", "b".to_string(), "k/x".to_string(), "s".to_string());
    let url = signer.get_presigned_url_for_file(&"f".to_string());
    assert!(url.contains("X-Amz-Credential=k%2Fx%2F"));
    assert!(url.contains("%2Feu-west-1%2Fs3%2Faws4_request"));
}

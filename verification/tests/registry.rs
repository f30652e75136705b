use registry_sweep::registry::{
    catalog_path, digest_from_headers, is_not_found, manifest_path, tag_list_path, Catalog,
    HeaderField, ImageTagList,
};

fn field(name: &str, value: Option<&str>) -> HeaderField {
    HeaderField { name: name.to_string(), value: value.map(|v| v.to_string()) }
}

#[test]
fn catalog_holds_its_repositories() {
    let catalog = Catalog::new(vec!["library/nginx".to_string(), "app".to_string()]);
    assert_eq!(catalog.repositories(), &vec!["library/nginx".to_string(), "app".to_string()]);
}

#[test]
fn tag_list_holds_its_tags() {
    let list = ImageTagList::new(vec!["b".to_string(), "a".to_string()]);
    assert_eq!(list.tags(), &vec!["b".to_string(), "a".to_string()]);
}

#[test]
fn paths_follow_the_registry_layout() {
    assert_eq!(catalog_path(), "/v2/_catalog");
    assert_eq!(tag_list_path("library/nginx"), "/v2/library/nginx/tags/list");
    assert_eq!(manifest_path("library/nginx", "v1.0.0"), "/v2/library/nginx/manifests/v1.0.0");
    assert_eq!(manifest_path("app", "sha256:abc"), "/v2/app/manifests/sha256:abc");
    assert_eq!(tag_list_path(""), "/v2//tags/list");
}

#[test]
fn only_status_404_means_not_found() {
    assert!(is_not_found(404));
    assert!(!is_not_found(200));
    assert!(!is_not_found(400));
    assert!(!is_not_found(403));
    assert!(!is_not_found(500));
}

#[test]
fn digest_is_read_from_its_header() {
    let headers = vec![
        field("content-type", Some("application/json")),
        field("docker-content-digest", Some("sha256:abc")),
        field("content-length", Some("0")),
    ];
    assert_eq!(digest_from_headers(&headers), Some("sha256:abc".to_string()));
}

#[test]
fn first_digest_header_decides() {
    let headers = vec![
        field("docker-content-digest", Some("sha256:first")),
        field("docker-content-digest", Some("sha256:second")),
    ];
    assert_eq!(digest_from_headers(&headers), Some("sha256:first".to_string()));
    let unreadable = vec![
        field("docker-content-digest", None),
        field("docker-content-digest", Some("sha256:second")),
    ];
    assert_eq!(digest_from_headers(&unreadable), None);
}

#[test]
fn missing_digest_header_gives_none() {
    assert_eq!(digest_from_headers(&Vec::new()), None);
    let headers = vec![field("content-type", Some("x")), field("docker-content-digests", Some("y"))];
    assert_eq!(digest_from_headers(&headers), None);
}

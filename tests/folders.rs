use s3clix::config::{
    default_guess_mime, default_make_pubic, default_timeout, default_tries, resolve_bucket,
    HeaderAuth, HostAccessStyle, S3Bucket, S3Config, S3UploadType,
};
use s3clix::s3::{FileList, Listing, ObjectInfo, S3Client, S3Error};
use s3clix::text::strip_prefix;

fn bucket(alias: &str, cdn: &str, prefix: Option<&str>) -> S3Bucket {
    S3Bucket {
        alias: alias.to_string(),
        cdn_url: cdn.to_string(),
        make_public: false,
        style: HostAccessStyle::default(),
        bucket: "raw".to_string(),
        access_key: "xxx".to_string(),
        secret_key: "xxxx".to_string(),
        url: "http://localhost:9000".to_string(),
        sso_group_prefix: prefix.map(|p| p.to_string()),
        guess_mime: true,
        timeout: 1,
        tries: 2,
    }
}

fn client(cdn: &str) -> S3Client {
    let cfg = S3Config {
        upload_type: S3UploadType::Serial,
        workers: 1,
        upload_memory_pool: 4,
        download_memory_pool: 4,
        buckets: vec![],
    };
    S3Client::new_from_bucket(&cfg, bucket("main", cdn, None))
}

fn obj(key: &str, size: u64) -> ObjectInfo {
    ObjectInfo { key: key.to_string(), size }
}

#[test]
fn name_of_key_is_last_segment() {
    assert_eq!(strip_prefix("a/b/c.txt"), "c.txt");
    assert_eq!(strip_prefix("file.txt"), "file.txt");
    assert_eq!(strip_prefix("dir/"), "dir");
}

#[test]
fn name_of_prefix_strips_trailing_slash() {
    assert_eq!(strip_prefix("a/b/"), "b");
    assert_eq!(strip_prefix("a//"), "");
    assert_eq!(strip_prefix(""), "");
}

#[test]
fn defaults_of_bucket_settings() {
    assert_eq!(default_timeout(), 15);
    assert_eq!(default_tries(), 3);
    assert!(!default_make_pubic());
    assert!(!default_guess_mime());
    assert!(matches!(HostAccessStyle::default(), HostAccessStyle::Path));
}

#[test]
fn alias_defaults_to_bucket_name() {
    let b = bucket("", "", None).with_default_alias();
    assert_eq!(b.alias, "raw");
    let b = bucket("nice", "", None).with_default_alias();
    assert_eq!(b.alias, "nice");
}

#[test]
fn registry_resolves_alias_or_first() {
    let buckets = vec![bucket("one", "", None), bucket("two", "", None)];
    assert_eq!(resolve_bucket(&buckets, None), Some(0));
    assert_eq!(resolve_bucket(&buckets, Some("two")), Some(1));
    assert_eq!(resolve_bucket(&buckets, Some("three")), None);
    assert_eq!(resolve_bucket(&vec![], None), None);
}

#[test]
fn header_admins() {
    let h = HeaderAuth { header: "x-user".to_string(), admins: vec!["root".to_string()] };
    assert!(h.is_admin("root"));
    assert!(!h.is_admin("guest"));
}

#[test]
fn list_puts_folders_first_and_drops_placeholders() {
    let c = client("");
    let listing = Listing {
        objects: vec![obj("a/x.txt", 5), obj("a/.placeholder", 0), obj("a/y.bin", 7)],
        prefixes: vec!["a/sub/".to_string()],
    };
    let r = c.list(&listing);
    assert_eq!(r.len(), 3);
    assert!(r[0].folder);
    assert_eq!(r[0].path, "a/sub/");
    assert_eq!(r[0].name, "sub");
    assert_eq!(r[0].size, 0);
    assert_eq!(r[1].path, "a/x.txt");
    assert_eq!(r[1].name, "x.txt");
    assert_eq!(r[1].size, 5);
    assert!(r[1].cdn_url.is_none());
    assert_eq!(r[2].name, "y.bin");
}

#[test]
fn list_decorates_files_with_cdn() {
    let c = client("https://cdn.example.com/");
    let listing = Listing { objects: vec![obj("a/x.txt", 5)], prefixes: vec!["a/b/".to_string()] };
    let r = c.list(&listing);
    assert!(r[0].cdn_url.is_none());
    assert_eq!(r[1].cdn_url.as_deref(), Some("https://cdn.example.com/a/x.txt"));
}

#[test]
fn exists_needs_exact_key() {
    let c = client("");
    let listing = Listing { objects: vec![obj("a/x.txt", 5), obj("a/x.txt.bak", 5)], prefixes: vec![] };
    assert!(c.key_exists("a/x.txt", &listing));
    assert!(!c.key_exists("a/x", &listing));
}

#[test]
fn short_search_patterns_return_nothing() {
    let c = client("");
    let listing = Listing { objects: vec![obj("ab", 5), obj("abc", 5)], prefixes: vec![] };
    assert!(!S3Client::search_scans("ab"));
    assert_eq!(c.search("ab", &listing).unwrap().len(), 0);
    assert_eq!(c.search("", &listing).unwrap().len(), 0);
}

#[test]
fn search_ignores_ascii_case_and_empty_objects() {
    let c = client("https://cdn/");
    let listing = Listing {
        objects: vec![obj("docs/Report.PDF", 10), obj("docs/report.txt", 0), obj("img/x.png", 3)],
        prefixes: vec![],
    };
    let r = c.search("report", &listing).unwrap();
    assert_eq!(r.len(), 1);
    assert_eq!(r[0].path, "docs/Report.PDF");
    assert_eq!(r[0].name, "Report.PDF");
    assert!(r[0].cdn_url.is_none());
}

#[test]
fn content_type_guess() {
    let c = client("");
    assert_eq!(c.content_type("a/b.txt"), "text/plain");
    let mut b = bucket("x", "", None);
    b.guess_mime = false;
    let cfg = S3Config {
        upload_type: S3UploadType::Parallel,
        workers: 1,
        upload_memory_pool: 4,
        download_memory_pool: 4,
        buckets: vec![],
    };
    let c2 = S3Client::new_from_bucket(&cfg, b);
    assert_eq!(c2.content_type("a/b.txt"), "application/octet-stream");
}

#[test]
fn prepare_download_needs_one_file() {
    let c = client("");
    let file = FileList {
        path: "a/b.png".to_string(),
        name: "b.png".to_string(),
        size: 12,
        folder: false,
        cdn_url: None,
    };
    let (name, size, mime) = c.prepare_download(&vec![file.clone()]).unwrap();
    assert_eq!(name, "b.png");
    assert_eq!(size, 12);
    assert_eq!(mime, "image/png");
    assert!(matches!(c.prepare_download(&vec![]), Err(S3Error::NotFound)));
    assert!(matches!(c.prepare_download(&vec![file.clone(), file.clone()]), Err(S3Error::NotFound)));
    let mut folder = file;
    folder.folder = true;
    assert!(matches!(c.prepare_download(&vec![folder]), Err(S3Error::NotFound)));
}

#[test]
fn mkdir_creates_placeholder_key() {
    assert_eq!(S3Client::mkdir_key("a/new"), "a/new/.placeholder");
}

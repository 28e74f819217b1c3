use qiniu_upload::keys::base_name;
use qiniu_upload::keys::derive_directory_key;
use qiniu_upload::keys::get_download_url;
use qiniu_upload::keys::normalize_key;
use qiniu_upload::keys::single_file_object_name;

fn b(s: &str) -> Vec<u8> {
    s.as_bytes().to_vec()
}

#[test]
fn normalize_collapses_and_lowercases() {
    assert_eq!(normalize_key(&b("Backups//Photos/A.JPG")), b("backups/photos/a.jpg"));
}

#[test]
fn normalize_collapses_longer_runs() {
    assert_eq!(normalize_key(&b("a///b////c")), b("a/b/c"));
}

#[test]
fn normalize_empty_is_empty() {
    assert_eq!(normalize_key(&b("")), b(""));
}

#[test]
fn normalize_only_separators() {
    assert_eq!(normalize_key(&b("////")), b("/"));
}

#[test]
fn normalize_is_idempotent_on_samples() {
    for s in ["A//B///c", "UPLOADS//x/Y.png", "//", "MiXeD/case//path"] {
        let once = normalize_key(&b(s));
        let twice = normalize_key(&once);
        assert_eq!(twice, once);
    }
}

#[test]
fn base_name_plain() {
    assert_eq!(base_name(&b("photos")), b("photos"));
}

#[test]
fn base_name_nested() {
    assert_eq!(base_name(&b("/home/user/photos")), b("photos"));
}

#[test]
fn base_name_trailing_separator() {
    assert_eq!(base_name(&b("photos/")), b("photos"));
}

#[test]
fn base_name_keeps_extension() {
    assert_eq!(base_name(&b("backups/archive.tar")), b("archive.tar"));
}

#[test]
fn single_file_default_key() {
    // Scenario: a single file with no explicit object name goes under
    // "uploads/" with its base name.
    assert_eq!(single_file_object_name(None, &b("/tmp/report.pdf")), b("uploads/report.pdf"));
}

#[test]
fn single_file_explicit_key_is_verbatim() {
    let explicit = b("My/Exact.Key");
    assert_eq!(single_file_object_name(Some(&explicit), &b("/tmp/report.pdf")), b("My/Exact.Key"));
}

#[test]
fn directory_keys_without_destination_prefix() {
    // Scenario: directory "photos" holding a.jpg and sub/b.jpg, no
    // destination prefix.
    let root = b("photos");
    let dir_name = base_name(&root);
    assert_eq!(
        derive_directory_key(None, &dir_name, &root, &b("photos/a.jpg")),
        b("uploads/photos/a.jpg")
    );
    assert_eq!(
        derive_directory_key(None, &dir_name, &root, &b("photos/sub/b.jpg")),
        b("uploads/photos/sub/b.jpg")
    );
}

#[test]
fn directory_keys_with_destination_prefix() {
    // Scenario: directory "Photos" with destination prefix "/Backups/":
    // the namespace becomes backups/photos/..., lower-cased, single
    // separators.
    let root = b("Photos");
    let dir_name = base_name(&root);
    let dest = b("/Backups/");
    assert_eq!(
        derive_directory_key(Some(&dest), &dir_name, &root, &b("Photos/a.jpg")),
        b("backups/photos/a.jpg")
    );
    assert_eq!(
        derive_directory_key(Some(&dest), &dir_name, &root, &b("Photos/sub/B.JPG")),
        b("backups/photos/sub/b.jpg")
    );
}

#[test]
fn directory_key_item_outside_root_is_kept_whole() {
    let root = b("photos");
    let dir_name = base_name(&root);
    let dest = b("backups");
    assert_eq!(
        derive_directory_key(Some(&dest), &dir_name, &root, &b("other/c.jpg")),
        b("backups/photos/other/c.jpg")
    );
}

#[test]
fn download_url_without_domain_is_empty() {
    assert_eq!(get_download_url(None, &b("uploads/a.jpg")), b(""));
}

#[test]
fn download_url_bare_domain_gets_scheme() {
    assert_eq!(
        get_download_url(Some(b("cdn.example.com")), &b("uploads/a.jpg")),
        b("https://cdn.example.com/uploads/a.jpg")
    );
}

#[test]
fn download_url_keeps_existing_scheme() {
    assert_eq!(
        get_download_url(Some(b("http://cdn.example.com")), &b("uploads/a.jpg")),
        b("http://cdn.example.com/uploads/a.jpg")
    );
}

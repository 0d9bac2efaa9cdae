use certified_assets::assets::{
    http_request, init_assets, insert_asset, update_root_hash, Asset, Assets, BundleError,
    HttpRequest,
};
use certified_assets::tree::AssetHashes;

fn request(url: &str) -> HttpRequest {
    HttpRequest {
        method: "GET".to_string(),
        url: url.to_string(),
        headers: vec![],
        body: vec![],
    }
}

fn fresh() -> (Assets, AssetHashes) {
    (Assets::new(), AssetHashes::new())
}

#[test]
fn insert_then_lookup_returns_bytes() {
    let (mut assets, mut hashes) = fresh();
    let payload = b"hello world".to_vec();
    insert_asset(&mut assets, &mut hashes, "/greeting.txt", Asset::new(payload.clone()));
    let found = assets.get("/greeting.txt").expect("asset must be present");
    assert_eq!(found.bytes, payload);
}

#[test]
fn overwrite_is_last_writer_wins() {
    let (mut assets, mut hashes) = fresh();
    insert_asset(&mut assets, &mut hashes, "/a.txt", Asset::new(b"one".to_vec()));
    insert_asset(&mut assets, &mut hashes, "/a.txt", Asset::new(b"two".to_vec()));
    assert_eq!(assets.get("/a.txt").unwrap().bytes, b"two".to_vec());
}

#[test]
fn index_html_gets_directory_alias() {
    let (mut assets, mut hashes) = fresh();
    let body = b"<html>blog</html>".to_vec();
    insert_asset(&mut assets, &mut hashes, "/blog/index.html", Asset::new(body.clone()));
    assert_eq!(assets.get("/blog/index.html").unwrap().bytes, body);
    assert_eq!(assets.get("/blog/").unwrap().bytes, body);
    assert!(assets.get("/blog").is_none());
}

#[test]
fn root_index_html_aliases_to_empty_prefix() {
    let (mut assets, mut hashes) = fresh();
    let body = b"root".to_vec();
    insert_asset(&mut assets, &mut hashes, "index.html", Asset::new(body.clone()));
    assert_eq!(assets.get("").unwrap().bytes, body);
}

#[test]
fn non_component_index_suffix_gets_no_alias() {
    let (mut assets, mut hashes) = fresh();
    insert_asset(&mut assets, &mut hashes, "/myindex.html", Asset::new(b"x".to_vec()));
    assert!(assets.get("/my").is_none());
    assert!(assets.get("/").is_none());
}

#[test]
fn idempotent_overwrite_keeps_root_digest() {
    let (mut assets, mut hashes) = fresh();
    let first = insert_asset(&mut assets, &mut hashes, "/a.css", Asset::new(b"body{}".to_vec()));
    let again = insert_asset(&mut assets, &mut hashes, "/a.css", Asset::new(b"body{}".to_vec()));
    assert_eq!(first, again);
    let changed = insert_asset(&mut assets, &mut hashes, "/a.css", Asset::new(b"p{}".to_vec()));
    assert_ne!(first, changed);
}

#[test]
fn root_digest_matches_published_value() {
    let (mut assets, mut hashes) = fresh();
    let root = insert_asset(&mut assets, &mut hashes, "/x", Asset::new(b"x".to_vec()));
    assert_eq!(root, update_root_hash(&hashes));
}

#[test]
fn from_assets_rebuilds_the_same_root() {
    let (mut assets, mut hashes) = fresh();
    insert_asset(&mut assets, &mut hashes, "/blog/index.html", Asset::new(b"ten bytes!".to_vec()));
    insert_asset(&mut assets, &mut hashes, "/style.css", Asset::new(b"abcde".to_vec()));
    let rebuilt = AssetHashes::from_assets(&assets);
    assert_eq!(rebuilt.root_hash(), hashes.root_hash());
}

#[test]
fn assets_insert_and_get_directly() {
    let mut assets = Assets::new();
    assets.insert("/direct", Asset::new(b"direct".to_vec()));
    assert_eq!(assets.get("/direct").unwrap().bytes, b"direct".to_vec());
    assert!(assets.get("/other").is_none());
}

#[test]
fn asset_new_has_no_headers() {
    let a = Asset::new(b"payload".to_vec());
    assert!(a.headers.is_empty());
    assert_eq!(a.bytes, b"payload".to_vec());
}

#[test]
fn http_request_strips_query_string() {
    let (mut assets, mut hashes) = fresh();
    insert_asset(&mut assets, &mut hashes, "/page", Asset::new(b"page".to_vec()));
    let cert = b"certificate-bytes".to_vec();
    let resp = http_request(&assets, &hashes, &cert, request("/page?version=3"));
    assert_eq!(resp.status_code, 200);
    assert_eq!(resp.body, b"page".to_vec());
}

#[test]
fn http_request_not_found_names_the_path() {
    let (assets, hashes) = fresh();
    let cert = b"certificate-bytes".to_vec();
    let resp = http_request(&assets, &hashes, &cert, request("/does-not-exist"));
    assert_eq!(resp.status_code, 404);
    assert!(resp.headers.is_empty());
    let body = String::from_utf8(resp.body).unwrap();
    assert_eq!(body, "Asset /does-not-exist not found.");
    assert!(body.contains("/does-not-exist"));
}

#[test]
fn map_paths_get_json_content_type() {
    let (mut assets, mut hashes) = fresh();
    insert_asset(&mut assets, &mut hashes, "/app.js.map", Asset::new(b"{}".to_vec()));
    let cert = b"c".to_vec();
    let resp = http_request(&assets, &hashes, &cert, request("/app.js.map"));
    assert_eq!(resp.status_code, 200);
    let ct: Vec<&(String, String)> =
        resp.headers.iter().filter(|h| h.0 == "Content-Type").collect();
    assert_eq!(ct.len(), 1);
    assert_eq!(ct[0].1, "application/json");
}

#[test]
fn css_paths_get_css_content_type() {
    let (mut assets, mut hashes) = fresh();
    insert_asset(&mut assets, &mut hashes, "/style.css", Asset::new(b"p{}".to_vec()));
    let cert = b"c".to_vec();
    let resp = http_request(&assets, &hashes, &cert, request("/style.css"));
    assert_eq!(resp.status_code, 200);
    let ct: Vec<&(String, String)> =
        resp.headers.iter().filter(|h| h.0 == "Content-Type").collect();
    assert_eq!(ct.len(), 1);
    assert_eq!(ct[0].1, "text/css");
}

#[test]
fn asset_headers_are_echoed_before_certification_header() {
    let (mut assets, mut hashes) = fresh();
    let asset = Asset {
        headers: vec![("Cache-Control".to_string(), "no-store".to_string())],
        bytes: b"x".to_vec(),
    };
    insert_asset(&mut assets, &mut hashes, "/h", asset);
    let cert = b"c".to_vec();
    let resp = http_request(&assets, &hashes, &cert, request("/h"));
    assert_eq!(resp.headers[0], ("Cache-Control".to_string(), "no-store".to_string()));
    assert_eq!(resp.headers[1].0, "IC-Certificate");
}

#[test]
fn init_assets_loads_a_decoded_bundle() {
    let (mut assets, mut hashes) = fresh();
    let entries = vec![
        (b"./blog/index.html".to_vec(), b"ten bytes!".to_vec()),
        (b"./style.css".to_vec(), b"abcde".to_vec()),
    ];
    let root = init_assets(&mut assets, &mut hashes, &entries).expect("load must succeed");
    assert_eq!(assets.get("/blog/index.html").unwrap().bytes, b"ten bytes!".to_vec());
    assert_eq!(assets.get("/blog/").unwrap().bytes, b"ten bytes!".to_vec());
    assert_eq!(assets.get("/style.css").unwrap().bytes, b"abcde".to_vec());
    assert_eq!(root, update_root_hash(&hashes));
}

#[test]
fn init_assets_strips_only_a_present_leading_dot() {
    let (mut assets, mut hashes) = fresh();
    let entries = vec![(b"/plain.txt".to_vec(), b"p".to_vec())];
    init_assets(&mut assets, &mut hashes, &entries).expect("load must succeed");
    assert_eq!(assets.get("/plain.txt").unwrap().bytes, b"p".to_vec());
}

#[test]
fn init_assets_rejects_non_utf8_paths_without_partial_commit() {
    let (mut assets, mut hashes) = fresh();
    let before = hashes.root_hash();
    let entries = vec![
        (b"./good.txt".to_vec(), b"g".to_vec()),
        (vec![46, 47, 0xff, 0xfe], b"bad".to_vec()),
    ];
    let r = init_assets(&mut assets, &mut hashes, &entries);
    assert_eq!(r, Err(BundleError::NonUtf8Path));
    assert!(assets.get("/good.txt").is_none());
    assert_eq!(hashes.root_hash(), before);
}

#[test]
fn end_to_end_bundle_scenario() {
    let (mut assets, mut hashes) = fresh();
    let blog = b"ten bytes!".to_vec();
    let css = b"abcde".to_vec();
    assert_eq!(blog.len(), 10);
    assert_eq!(css.len(), 5);
    let root1 = insert_asset(&mut assets, &mut hashes, "/blog/index.html", Asset::new(blog.clone()));
    let root2 = insert_asset(&mut assets, &mut hashes, "/style.css", Asset::new(css.clone()));
    // the published root digest changed once per insert call
    assert_ne!(root1, root2);
    let cert = b"platform-certificate".to_vec();
    let r1 = http_request(&assets, &hashes, &cert, request("/blog/"));
    let r2 = http_request(&assets, &hashes, &cert, request("/blog/index.html"));
    assert_eq!(r1.status_code, 200);
    assert_eq!(r1.body, blog);
    assert_eq!(r1.body, r2.body);
    let r3 = http_request(&assets, &hashes, &cert, request("/style.css"));
    assert_eq!(r3.body, css);
    assert!(r3.headers.iter().any(|h| h.0 == "Content-Type" && h.1 == "text/css"));
    // the same load performed again is deterministic
    let (mut assets2, mut hashes2) = fresh();
    insert_asset(&mut assets2, &mut hashes2, "/blog/index.html", Asset::new(blog));
    let root2b = insert_asset(&mut assets2, &mut hashes2, "/style.css", Asset::new(css));
    assert_eq!(root2, root2b);
}

#[test]
fn alias_is_an_independent_entry() {
    let (mut assets, mut hashes) = fresh();
    insert_asset(&mut assets, &mut hashes, "/blog/index.html", Asset::new(b"first".to_vec()));
    insert_asset(&mut assets, &mut hashes, "/blog/", Asset::new(b"second".to_vec()));
    assert_eq!(assets.get("/blog/").unwrap().bytes, b"second".to_vec());
    assert_eq!(assets.get("/blog/index.html").unwrap().bytes, b"first".to_vec());
}

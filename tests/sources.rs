use devtools::sandbox::{normalize_path, validate_path};
use devtools::sources::{
    chunk_bytes, chunk_of_read, dir_entry, list_entries_from_assets, plan_entry_bytes, plan_list_entries, Asset,
    BytesPlan, Entry, ListPlan, SourceError, ASSET, CHUNK_SIZE, DIR, FILE, SYMLINK,
};

fn asset(path: &str, size: u64) -> Asset {
    Asset { path: path.to_string(), size }
}

fn entry(path: &str, size: u64, file_type: u32) -> Entry {
    Entry { path: path.to_string(), size, file_type }
}

// Listing "." with no bundle reads the root directory itself; each child
// read from it (here a file and a directory) gives one row, classified by kind.
#[test]
fn sources_list_entries() {
    let plan = plan_list_entries(".", false, 0).unwrap();
    assert_eq!(plan, ListPlan::Dir(".".to_string()));
    let children = [("Cargo.toml", 120u64, false, true), ("src", 0u64, true, false)];
    let entries: Vec<Entry> = children
        .iter()
        .map(|(name, size, is_dir, is_file)| dir_entry(name.to_string(), *size, *is_dir, *is_file, false, &vec![]))
        .collect();
    assert_eq!(entries.len(), 2);
    assert_eq!(entries[0], entry("Cargo.toml", 120, FILE));
    assert_eq!(entries[1], entry("src", 0, DIR));
}

#[test]
fn sources_list_entries_root() {
    let res = plan_list_entries("/", false, 0);
    assert!(res.is_err(), "requesting the root path should fail");
    let res = plan_list_entries("/foo/bar/this", false, 0);
    assert!(res.is_err(), "requesting the root path should fail")
}

#[test]
fn sources_list_entries_parent() {
    let res = plan_list_entries("../", false, 0);
    assert!(res.is_err(), "requesting an absolute path should fail");
    let res = plan_list_entries("foo/bar/../this", false, 0);
    assert!(res.is_err(), "requesting an absolute path should fail");
    let res = plan_list_entries("..", false, 0);
    assert!(res.is_err(), "requesting an absolute path should fail")
}

#[test]
fn sources_get_bytes() {
    let plan = plan_entry_bytes("./Cargo.toml", false, &vec![]).unwrap();
    assert_eq!(plan, BytesPlan::File("./Cargo.toml".to_string()));
    let content: Vec<u8> = (0..1300u32).map(|i| (i % 251) as u8).collect();
    let chunks = chunk_bytes(&content);
    let mut buf = Vec::new();
    for chunk in chunks {
        buf.extend_from_slice(&chunk.bytes);
    }
    assert!(buf.len() > 0);
    assert_eq!(buf, content);
}

#[test]
fn sources_get_bytes_root() {
    let res = plan_entry_bytes("/", false, &vec![]);
    assert!(res.is_err(), "requesting the root path should fail");
    let res = plan_entry_bytes("/foo/bar/this", false, &vec![]);
    assert!(res.is_err(), "requesting the root path should fail")
}

#[test]
fn sources_get_bytes_parent() {
    let res = plan_entry_bytes("../", false, &vec![]);
    assert!(res.is_err(), "requesting an absolute path should fail");
    let res = plan_entry_bytes("foo/bar/../this", false, &vec![]);
    assert!(res.is_err(), "requesting an absolute path should fail");
    let res = plan_entry_bytes("..", false, &vec![]);
    assert!(res.is_err(), "requesting an absolute path should fail")
}

#[test]
fn sandbox_accepts_plain_relative_paths() {
    for p in ["", ".", "./", "src", "./src/main.rs", "a/./b", "...", "a..b", "..a", "a/..b/c", "C:x", "\\x", "a\\..\\b"] {
        assert!(validate_path(p, false), "{p} should be safe on Unix");
    }
    for p in ["", ".", "./", "src", "a\\.\\b", "a..b"] {
        assert!(validate_path(p, true), "{p} should be safe on Windows");
    }
}

#[test]
fn sandbox_refuses_escaping_paths() {
    for p in ["/", "/etc", "..", "a/..", "./../x", "../", "foo/bar/../this"] {
        assert!(!validate_path(p, false), "{p} should be unsafe on Unix");
        assert!(!validate_path(p, true), "{p} should be unsafe on Windows");
    }
    for p in ["\\x", "\\\\server\\share", "C:", "C:x", "c:\\windows", "a\\..\\b"] {
        assert!(!validate_path(p, true), "{p} should be unsafe on Windows");
    }
}

#[test]
fn normal_form_of_relative_paths() {
    for (p, n) in [("", ""), (".", ""), ("./", ""), ("./src", "src"), ("src/.", "src"), ("a//b/", "a/b"), ("./a/./b/c", "a/b/c"), ("assets..", "assets..")] {
        assert_eq!(normalize_path(p, false), n, "{p}");
    }
    assert_eq!(normalize_path("src\\app", false), "src\\app");
    assert_eq!(normalize_path(".\\src\\app", true), "src/app");
}

#[test]
fn both_operations_reject_the_same_paths() {
    for p in ["/", "/foo/bar", "..", "../", "foo/bar/../this", ".", "src", "./Cargo.toml"] {
        let a = plan_list_entries(p, false, 3).is_err();
        let b = plan_entry_bytes(p, false, &vec![asset("/index.html", 4)]).is_err();
        assert_eq!(a, b, "{p}");
        assert_eq!(a, !validate_path(p, false));
    }
    assert_eq!(plan_entry_bytes("..", false, &vec![]), Err(SourceError::NotFound));
}

#[test]
fn list_plan_uses_assets_when_bundled() {
    for p in ["", ".", "./"] {
        assert_eq!(plan_list_entries(p, false, 2), Ok(ListPlan::Assets(String::new())), "{p}");
    }
    assert_eq!(plan_list_entries("./src", false, 2), Ok(ListPlan::Assets("src".to_string())));
    assert_eq!(plan_list_entries("src/.", false, 2), Ok(ListPlan::Assets("src".to_string())));
    assert_eq!(plan_list_entries("src", false, 0), Ok(ListPlan::Dir("src".to_string())));
}

#[test]
fn bytes_plan_finds_bundled_asset() {
    let assets = vec![asset("/app.js", 10), asset("/index.html", 20), asset("/index.html", 30)];
    assert_eq!(plan_entry_bytes("./index.html", false, &assets), Ok(BytesPlan::Asset(1)));
    assert_eq!(plan_entry_bytes("index.html", false, &assets), Ok(BytesPlan::Asset(1)));
    assert_eq!(plan_entry_bytes("app.js", false, &assets), Ok(BytesPlan::Asset(0)));
    assert_eq!(plan_entry_bytes("other.txt", false, &assets), Ok(BytesPlan::File("other.txt".to_string())));
}

#[test]
fn asset_listing_at_top() {
    let assets = vec![
        asset("/index.html", 100),
        asset("/assets/app.js", 200),
        asset("/assets/app.css", 300),
        asset("/favicon.ico", 7),
    ];
    let entries = list_entries_from_assets(&assets, "");
    assert_eq!(
        entries,
        vec![entry("index.html", 100, FILE | ASSET), entry("assets", 0, DIR | ASSET), entry("favicon.ico", 7, FILE | ASSET)]
    );
}

#[test]
fn asset_listing_below_root() {
    let assets = vec![
        asset("/index.html", 100),
        asset("/assets/app.js", 200),
        asset("/assets/img/logo.png", 300),
        asset("/assets/img/icon.png", 400),
        asset("/assetsx/other.js", 5),
    ];
    let entries = list_entries_from_assets(&assets, "assets");
    assert_eq!(entries, vec![entry("app.js", 200, FILE | ASSET), entry("img", 0, DIR | ASSET)]);
    assert!(list_entries_from_assets(&assets, "missing").is_empty());
}

#[test]
fn asset_listing_is_repeatable() {
    let assets = vec![asset("/a/b", 1), asset("/c", 2), asset("/a/d", 3)];
    let first = list_entries_from_assets(&assets, "");
    let second = list_entries_from_assets(&assets, "");
    assert_eq!(first, second);
    assert_eq!(first.len(), 2);
}

#[test]
fn dir_entry_marks_bundled_names() {
    let assets = vec![asset("/index.html", 1)];
    assert_eq!(dir_entry("index.html".to_string(), 9, false, true, false, &assets), entry("index.html", 9, FILE | ASSET));
    assert_eq!(dir_entry("link".to_string(), 3, false, false, true, &assets), entry("link", 3, SYMLINK));
}

#[test]
fn chunks_are_bounded() {
    let content = vec![7u8; 2 * CHUNK_SIZE + 1];
    let chunks = chunk_bytes(&content);
    let sizes: Vec<usize> = chunks.iter().map(|c| c.bytes.len()).collect();
    assert_eq!(sizes, vec![512, 512, 1]);
    assert!(chunk_bytes(&[]).is_empty());
    assert_eq!(chunk_bytes(&[1, 2, 3]).len(), 1);
    assert_eq!(chunk_bytes(&vec![0u8; 512]).len(), 1);
}

#[test]
fn read_step_yields_what_was_read() {
    let buf = [9u8, 8, 7, 6];
    assert_eq!(chunk_of_read(&buf, 0), None);
    assert_eq!(chunk_of_read(&buf, 3).unwrap().bytes, vec![9, 8, 7]);
}

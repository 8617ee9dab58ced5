use image_viewer::listing::{
    get_parent, get_path_items, is_allowed_extension, listing_target, sort_items, PathItem,
};

fn file(p: &str) -> PathItem {
    PathItem { is_directory: false, path: p.to_string() }
}

fn dir(p: &str) -> PathItem {
    PathItem { is_directory: true, path: p.to_string() }
}

fn paths(items: &[PathItem]) -> Vec<String> {
    items.iter().map(|i| i.path.clone()).collect()
}

#[test]
fn keeps_folders_and_image_files_only() {
    let scan = vec![
        Some(file("/p/notes.txt")),
        Some(file("/p/b.PNG")),
        Some(dir("/p/sub")),
        Some(file("/p/a.jpg")),
        Some(file("/p/c.Gif")),
        Some(file("/p/d.webp")),
        Some(file("/p/e.jpeg")),
        Some(file("/p/f.bmp")),
        Some(file("/p/noext")),
        Some(dir("/p/archive.zip")),
        Some(file("/p/.png")),
    ];
    let r = get_path_items(Some(scan));
    assert_eq!(
        paths(&r),
        vec![
            "/p/archive.zip", "/p/sub", "/p/a.jpg", "/p/b.PNG", "/p/c.Gif", "/p/d.webp",
            "/p/e.jpeg",
        ]
    );
    assert!(r[0].is_directory && r[1].is_directory);
    assert!(r[2..].iter().all(|i| !i.is_directory));
}

#[test]
fn folders_come_before_files() {
    let scan = vec![
        Some(file("/p/a1.png")),
        Some(dir("/p/z")),
        Some(file("/p/a0.png")),
        Some(dir("/p/b")),
    ];
    let r = get_path_items(Some(scan));
    assert_eq!(paths(&r), vec!["/p/b", "/p/z", "/p/a0.png", "/p/a1.png"]);
}

#[test]
fn numbers_sort_by_value() {
    let scan = vec![Some(file("a2.png")), Some(file("a10.png")), Some(file("a1.png"))];
    let r = get_path_items(Some(scan));
    assert_eq!(paths(&r), vec!["a1.png", "a2.png", "a10.png"]);
}

#[test]
fn folders_sort_by_number_value_too() {
    let r = sort_items(vec![dir("img10"), dir("img2"), dir("img1")]);
    assert_eq!(paths(&r), vec!["img1", "img2", "img10"]);
}

#[test]
fn unreadable_directory_lists_empty() {
    assert!(get_path_items(None).is_empty());
}

#[test]
fn empty_directory_lists_empty() {
    assert!(get_path_items(Some(Vec::new())).is_empty());
}

#[test]
fn unreadable_entries_are_skipped() {
    let r = get_path_items(Some(vec![None, Some(file("x.png")), None]));
    assert_eq!(r, vec![file("x.png")]);
}

#[test]
fn equal_entries_keep_their_order() {
    let r = sort_items(vec![file("a b"), file("ab")]);
    assert_eq!(paths(&r), vec!["a b", "ab"]);
}

#[test]
fn extension_match_ignores_case() {
    for e in ["jpeg", "JPG", "Png", "gif", "WEBP"] {
        assert!(is_allowed_extension(e), "{}", e);
    }
    for e in ["", "bmp", "pngx", "jp", "tiff"] {
        assert!(!is_allowed_extension(e), "{}", e);
    }
}

#[test]
fn parent_of_root_is_root() {
    assert_eq!(get_parent("/"), "/");
}

#[test]
fn parent_of_nested_path() {
    assert_eq!(get_parent("/x/y"), "/x");
}

#[test]
fn listing_target_of_a_file_is_its_folder() {
    assert_eq!(listing_target("/pics/a.png", true), "/pics");
    assert_eq!(listing_target("/pics", false), "/pics");
    assert_eq!(listing_target("/no/such/dir", false), "/no/such/dir");
}

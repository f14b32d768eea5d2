use comic_dl::{get_dir_name, get_file_name_without_extension, is_image_file};

#[test]
fn final_component() {
    assert_eq!(get_dir_name("/home/me/comics/"), Some("comics".to_string()));
    assert_eq!(get_dir_name("a/b/./"), Some("b".to_string()));
    assert_eq!(get_dir_name("a/.."), None);
    assert_eq!(get_dir_name("/"), None);
    assert_eq!(get_dir_name(""), None);
    assert_eq!(get_dir_name("pic.jpg"), Some("pic.jpg".to_string()));
}

#[test]
fn stems() {
    assert_eq!(get_file_name_without_extension("/x/archive.tar.gz"), Some("archive.tar".to_string()));
    assert_eq!(get_file_name_without_extension("/x/.bashrc"), Some(".bashrc".to_string()));
    assert_eq!(get_file_name_without_extension("/x/noext"), Some("noext".to_string()));
    assert_eq!(get_file_name_without_extension("/x/.."), None);
}

#[test]
fn image_files() {
    assert!(is_image_file("/x/12.jpg"));
    assert!(is_image_file("/x/12.JPEG"));
    assert!(is_image_file("cover.WebP"));
    assert!(!is_image_file("/x/notes.txt"));
    assert!(!is_image_file("/x/.png"));
    assert!(!is_image_file("/x/png"));
    assert!(!is_image_file("/x/"));
}

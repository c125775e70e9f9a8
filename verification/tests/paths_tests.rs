use collector::paths::{
    backups_dir, data_path, join_path, name_extension, name_stem, path_file_name, photo_archive_dir,
    photo_extension, resolve_photo, settings_path, thumb_path_for,
};

#[test]
fn file_names_follow_path_rules() {
    assert_eq!(path_file_name("/a/b/c.jpg").as_deref(), Some("c.jpg"));
    assert_eq!(path_file_name("c.jpg").as_deref(), Some("c.jpg"));
    assert_eq!(path_file_name("a/b/").as_deref(), Some("b"));
    assert_eq!(path_file_name("a/b/.").as_deref(), Some("b"));
    assert_eq!(path_file_name("a//b").as_deref(), Some("b"));
    assert_eq!(path_file_name(".hidden").as_deref(), Some(".hidden"));
    assert_eq!(path_file_name(""), None);
    assert_eq!(path_file_name("/"), None);
    assert_eq!(path_file_name("."), None);
    assert_eq!(path_file_name("./"), None);
    assert_eq!(path_file_name(".."), None);
    assert_eq!(path_file_name("a/.."), None);
}

#[test]
fn file_names_agree_with_std_path() {
    for p in ["/a/b/c.jpg", "a/b/", "a/b/.", "a//b", ".", "..", "/", "", "x/../y", "./z", "a/./", "/.", "...", "b/.../"] {
        let std_name = std::path::Path::new(p).file_name().and_then(|n| n.to_str()).map(|s| s.to_string());
        assert_eq!(path_file_name(p), std_name, "path {p:?}");
    }
}

#[test]
fn stems_and_extensions() {
    assert_eq!(name_stem("photo.jpg"), "photo");
    assert_eq!(name_stem("archive.tar.gz"), "archive.tar");
    assert_eq!(name_stem(".bashrc"), ".bashrc");
    assert_eq!(name_stem("noext"), "noext");
    assert_eq!(name_stem("trailing."), "trailing");
    assert_eq!(name_extension("photo.jpg").as_deref(), Some("jpg"));
    assert_eq!(name_extension("archive.tar.gz").as_deref(), Some("gz"));
    assert_eq!(name_extension(".bashrc"), None);
    assert_eq!(name_extension("noext"), None);
    assert_eq!(name_extension("trailing.").as_deref(), Some(""));
    for n in ["photo.jpg", "archive.tar.gz", ".bashrc", "noext", "trailing.", "..x", "a.b.c"] {
        let p = std::path::Path::new(n);
        assert_eq!(Some(name_stem(n).as_str()), p.file_stem().and_then(|s| s.to_str()), "{n}");
        assert_eq!(name_extension(n).as_deref(), p.extension().and_then(|s| s.to_str()), "{n}");
    }
}

#[test]
fn joining_follows_pathbuf_push() {
    assert_eq!(join_path("/data", "x.jpg"), "/data/x.jpg");
    assert_eq!(join_path("/data/", "x.jpg"), "/data/x.jpg");
    assert_eq!(join_path("", "x.jpg"), "x.jpg");
    assert_eq!(join_path("/data", "/abs"), "/abs");
    assert_eq!(join_path("/data", ""), "/data/");
    for (b, n) in [("/data", "x.jpg"), ("/data/", "x.jpg"), ("", "x.jpg"), ("/data", "/abs"), ("rel", "q")] {
        let std_joined = std::path::Path::new(b).join(n);
        assert_eq!(join_path(b, n), std_joined.to_str().unwrap());
    }
}

#[test]
fn app_files_live_in_the_app_directory() {
    assert_eq!(data_path("/home/u/.local/share/Collectors-Notebook"), "/home/u/.local/share/Collectors-Notebook/data.json");
    assert_eq!(settings_path("/app"), "/app/settings.json");
    assert_eq!(backups_dir("/app"), "/app/backups");
    assert_eq!(photo_archive_dir("/app/"), "/app/photo-archive");
}

#[test]
fn photos_resolve_into_the_photos_directory() {
    assert_eq!(resolve_photo("", "/p", true), "");
    assert_eq!(resolve_photo("x.jpg", "/p", false), "/p/x.jpg");
    assert_eq!(resolve_photo("/old/home/x.jpg", "/p", false), "/p/x.jpg");
    assert_eq!(resolve_photo("/old/home/x.jpg", "/p", true), "/old/home/x.jpg");
    assert_eq!(resolve_photo("rel/x.jpg", "/p", true), "/p/x.jpg");
    assert_eq!(resolve_photo("..", "/p", false), "/p/..");
}

#[test]
fn thumbnails_are_jpg_named_after_the_stem() {
    assert_eq!(thumb_path_for("abc.png", "/t"), "/t/abc.jpg");
    assert_eq!(thumb_path_for("/x/abc.tar.gz", "/t"), "/t/abc.tar.jpg");
    assert_eq!(thumb_path_for("", "/t"), "/t/thumb.jpg");
    assert_eq!(thumb_path_for("..", "/t"), "/t/thumb.jpg");
    assert_eq!(thumb_path_for(".png", "/t"), "/t/.png.jpg");
}

#[test]
fn migrated_names_keep_their_photo_and_thumbnail() {
    // a reference looked up in the photos directory finds the same file
    // before and after it is reduced to its name
    let p = "/old/machine/photos/abc.png";
    let n = path_file_name(p).unwrap();
    assert_eq!(resolve_photo(p, "/p", false), resolve_photo(&n, "/p", false));
    assert_eq!(thumb_path_for(p, "/t"), thumb_path_for(&n, "/t"));
}

#[test]
fn copied_photos_keep_their_extension() {
    assert_eq!(photo_extension("/a/b.png"), "png");
    assert_eq!(photo_extension("/a/b"), "jpg");
    assert_eq!(photo_extension(""), "jpg");
    assert_eq!(photo_extension("/a/.hidden"), "jpg");
}

#[test]
fn data_and_settings_live_in_the_same_folder() {
    for dir in ["/home/u/.local/share/collector", "/home/u/x/", "", "rel"] {
        let d = collector::paths::data_path(dir);
        let s = collector::paths::settings_path(dir);
        assert_eq!(std::path::Path::new(&d).parent(), std::path::Path::new(&s).parent());
        assert_eq!(std::path::Path::new(&d).file_name().unwrap(), "data.json");
        assert_eq!(std::path::Path::new(&s).file_name().unwrap(), "settings.json");
    }
}

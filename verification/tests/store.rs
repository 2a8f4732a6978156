use edabo::store::{get_playlist_filenames, playlist_file_name};

#[test]
fn playlist_file_name_appends_extension() {
    assert_eq!(playlist_file_name("foo"), "foo.edabo");
    assert_eq!(playlist_file_name(""), ".edabo");
}

#[test]
fn listing_keeps_only_playlist_files_in_order() {
    let entries = vec![
        "a.edabo".to_string(),
        "notes.txt".to_string(),
        "b.edabo".to_string(),
        "edabo".to_string(),
        ".edabo".to_string(),
    ];
    let names = get_playlist_filenames(&entries);
    assert_eq!(
        names,
        vec![
            "a.edabo".to_string(),
            "b.edabo".to_string(),
            ".edabo".to_string()
        ]
    );
}

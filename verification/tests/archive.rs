use std::io::{self, Cursor, Read, Write};
use std::path::{Path, PathBuf};

use petbuddy::archive::{
    append_bounded, ends_with_str, import_target, import_tmp_name, is_dir_name,
    read_entry_bounded, too_large_message,
    takes_spritesheet, ArchiveEntry, PetArchive, MAX_PET_FILE_BYTES, MAX_PET_JSON_BYTES,
};
use zip::write::SimpleFileOptions;
use zip::ZipWriter;

fn zip_of(files: &[(&str, &[u8])]) -> Vec<u8> {
    let mut w = ZipWriter::new(Cursor::new(Vec::new()));
    for (name, data) in files {
        if name.ends_with('/') {
            w.add_directory(*name, SimpleFileOptions::default()).unwrap();
        } else {
            w.start_file(*name, SimpleFileOptions::default()).unwrap();
            w.write_all(data).unwrap();
        }
    }
    w.finish().unwrap().into_inner()
}

#[test]
fn read_entry_bounded_accepts_small_payload() {
    let data = vec![1u8, 2, 3, 4];
    let out = read_entry_bounded(&data[..], 1024).unwrap();
    assert_eq!(out, data);
}

#[test]
fn read_entry_bounded_rejects_oversized_stream() {
    let big = std::io::repeat(0u8).take((MAX_PET_FILE_BYTES as u64) + 1);
    let err = read_entry_bounded(big, MAX_PET_FILE_BYTES).unwrap_err();
    assert_eq!(err.kind(), io::ErrorKind::InvalidData);
}

#[test]
fn read_entry_bounded_exact_limit_is_ok() {
    let data = std::io::repeat(7u8).take(MAX_PET_FILE_BYTES as u64);
    let out = read_entry_bounded(data, MAX_PET_FILE_BYTES).unwrap();
    assert_eq!(out.len(), MAX_PET_FILE_BYTES);
}

#[test]
fn read_entry_bounded_error_names_the_limit() {
    let err = read_entry_bounded(&[0u8; 11][..], 10).unwrap_err();
    assert_eq!(err.to_string(), "解压条目超出大小上限（10 字节）");
    assert_eq!(read_entry_bounded(&[][..], 0).unwrap(), Vec::<u8>::new());
}

#[test]
fn limits_are_fifty_and_one_megabytes() {
    assert_eq!(MAX_PET_FILE_BYTES, 50 * 1024 * 1024);
    assert_eq!(MAX_PET_JSON_BYTES, 1024 * 1024);
}

#[test]
fn garbage_is_not_a_package() {
    match PetArchive::open(b"not a zip".to_vec()) {
        Err(m) => assert!(m.starts_with("zip 打开失败: ")),
        Ok(_) => panic!("opened garbage"),
    }
}

#[test]
fn pet_json_is_found_by_suffix_and_read() {
    let bytes = zip_of(&[
        ("readme.txt", b"hi"),
        ("pack/pet.json", br#"{"id":"cat"}"#),
        ("other/pet.json", br#"{"id":"dog"}"#),
    ]);
    let mut a = PetArchive::open(bytes).unwrap();
    assert_eq!(a.len(), 3);
    assert_eq!(a.read_pet_json().unwrap(), Some(r#"{"id":"cat"}"#.to_string()));
}

#[test]
fn package_without_pet_json_reads_none() {
    let mut a = PetArchive::open(zip_of(&[("a.webp", b"x")])).unwrap();
    assert_eq!(a.read_pet_json().unwrap(), None);
}

#[test]
fn pet_json_must_be_utf8_and_small() {
    let mut a = PetArchive::open(zip_of(&[("pet.json", &[0xff, 0xfe])])).unwrap();
    assert!(a.read_pet_json().unwrap_err().starts_with("pet.json 编码非 UTF-8: "));

    let big = vec![b' '; MAX_PET_JSON_BYTES + 1];
    let mut a = PetArchive::open(zip_of(&[("pet.json", &big)])).unwrap();
    assert!(a.read_pet_json().unwrap_err().starts_with("pet.json 读取失败: "));

    let exact = vec![b' '; MAX_PET_JSON_BYTES];
    let mut a = PetArchive::open(zip_of(&[("pet.json", &exact)])).unwrap();
    assert_eq!(a.read_pet_json().unwrap().unwrap().len(), MAX_PET_JSON_BYTES);
}

#[test]
fn entries_are_dirs_files_or_skipped() {
    let bytes = zip_of(&[
        ("Sprites/", b""),
        ("Sprites/SpriteSheet.WEBP", b"RIFF"),
        ("../evil.txt", b"x"),
    ]);
    let mut a = PetArchive::open(bytes).unwrap();
    assert_eq!(a.len(), 3);
    match a.entry(0).unwrap() {
        Some(ArchiveEntry::Dir { path }) => assert_eq!(path, PathBuf::from("Sprites/")),
        _ => panic!("expected a directory"),
    }
    match a.entry(1).unwrap() {
        Some(ArchiveEntry::File { path, path_lower, name_lower, data }) => {
            assert_eq!(path, PathBuf::from("Sprites/SpriteSheet.WEBP"));
            assert_eq!(path_lower, "sprites/spritesheet.webp");
            assert_eq!(name_lower, "sprites/spritesheet.webp");
            assert_eq!(data, b"RIFF".to_vec());
        }
        _ => panic!("expected a file"),
    }
    assert!(a.entry(2).unwrap().is_none());
    assert!(a.entry(3).unwrap_err().starts_with("zip 读取失败: "));
}

#[test]
fn spritesheet_choice_prefers_the_exact_name() {
    assert!(takes_spritesheet("a.webp", "a.webp", false));
    assert!(!takes_spritesheet("b.webp", "b.webp", true));
    assert!(takes_spritesheet("x/spritesheet.webp", "x/spritesheet.webp", true));
    assert!(!takes_spritesheet("spritesheet.png", "spritesheet.png", false));
    assert!(!takes_spritesheet("pet.json", "spritesheet.webp", false));
}

#[test]
fn import_target_checks_the_trimmed_id() {
    let root = Path::new("/tmp/pets");
    assert_eq!(import_target(root, "  ").unwrap_err(), "pet.json 缺少 id");
    assert_eq!(
        import_target(root, " ../x ").unwrap_err(),
        "宠物 id 含非法字符或为空: ../x"
    );
    let (id, dir) = import_target(root, "  cat_1 ").unwrap();
    assert_eq!(id, "cat_1");
    assert_eq!(dir, root.join("cat_1"));
}

#[test]
fn staging_directory_name() {
    assert_eq!(import_tmp_name("cat"), ".import-tmp-cat");
}

#[test]
fn suffix_and_directory_names() {
    assert!(ends_with_str("pack/pet.json", "pet.json"));
    assert!(ends_with_str("pet.json", "pet.json"));
    assert!(!ends_with_str("et.json", "pet.json"));
    assert!(ends_with_str("", ""));
    assert!(is_dir_name("a/"));
    assert!(is_dir_name("a\\"));
    assert!(!is_dir_name("a"));
    assert!(!is_dir_name(""));
}

#[test]
fn chunks_are_taken_only_while_they_fit() {
    let mut buf = vec![1u8, 2];
    assert!(append_bounded(&mut buf, &[3, 4, 5], 2, 4));
    assert_eq!(buf, vec![1, 2, 3, 4]);
    assert!(!append_bounded(&mut buf, &[9], 1, 4));
    assert_eq!(buf, vec![1, 2, 3, 4]);
    assert_eq!(too_large_message(7), "解压条目超出大小上限（7 字节）");
}

#[test]
fn open_lists_the_entries() {
    let a = PetArchive::open(zip_of(&[("a.txt", b"1"), ("b/", b"")])).unwrap();
    assert_eq!(a.len(), 2);
}

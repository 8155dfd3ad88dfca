use petbuddy::keyed_map::KeyedMap;
use petbuddy::pet::codec::{base64_decode, base64_encode, webp_dimensions};
use petbuddy::pet::model::{
    build_pet_def, compute_frame, default_actions, FrameSeqJson, PetFrameJson, RawFrame,
    RawPetJson, RawSeq,
};
use petbuddy::pet::validator::{clamp_seq, is_valid_pet_id, safe_join};

/// A minimal VP8X WebP header of size (w, h): width−1 at bytes 24..27 and
/// height−1 at bytes 27..30.
fn make_webp(w: u32, h: u32) -> Vec<u8> {
    let mut v = Vec::new();
    v.extend_from_slice(b"RIFF");
    v.extend_from_slice(&(22u32).to_le_bytes());
    v.extend_from_slice(b"WEBP");
    v.extend_from_slice(b"VP8X");
    v.extend_from_slice(&10u32.to_le_bytes());
    v.extend_from_slice(&[0u8; 4]);
    let w1 = (w - 1).to_le_bytes();
    let h1 = (h - 1).to_le_bytes();
    v.push(w1[0]);
    v.push(w1[1]);
    v.push(w1[2]);
    v.push(h1[0]);
    v.push(h1[1]);
    v.push(h1[2]);
    v
}

fn raw_with_frame(id: &str, frame: Option<RawFrame>) -> RawPetJson {
    RawPetJson {
        id: id.to_string(),
        display_name: None,
        description: None,
        idle: None,
        talk: None,
        actions: None,
        frame,
    }
}

#[test]
fn webp_vp8_lossy_dims() {
    let mut v = Vec::new();
    v.extend_from_slice(b"RIFF");
    v.extend_from_slice(&20u32.to_le_bytes());
    v.extend_from_slice(b"WEBP");
    v.extend_from_slice(b"VP8 ");
    v.extend_from_slice(&10u32.to_le_bytes());
    v.extend_from_slice(&[0u8; 6]);
    v.extend_from_slice(&[0x40, 0x01]);
    v.extend_from_slice(&[0x80, 0x01]);
    v.extend_from_slice(&[0u8; 2]);
    assert_eq!(webp_dimensions(&v), Some((320, 384)));
}

#[test]
fn webp_vp8l_dims() {
    let mut v = Vec::new();
    v.extend_from_slice(b"RIFF");
    v.extend_from_slice(&14u32.to_le_bytes());
    v.extend_from_slice(b"WEBP");
    v.extend_from_slice(b"VP8L");
    v.extend_from_slice(&5u32.to_le_bytes());
    v.push(0x2f);
    v.push(0x63);
    v.push(0xc0);
    v.push(0x31);
    v.push(0x00);
    v.extend_from_slice(&[0u8; 5]);
    assert_eq!(webp_dimensions(&v), Some((100, 200)));
}

#[test]
fn webp_invalid_returns_none() {
    assert_eq!(webp_dimensions(b"not a webp at all"), None);
    assert_eq!(webp_dimensions(&[]), None);
}

#[test]
fn webp_vp8x_dims_roundtrip_header() {
    assert_eq!(webp_dimensions(&make_webp(1536, 2816)), Some((1536, 2816)));
    assert_eq!(webp_dimensions(&make_webp(1, 1)), Some((1, 1)));
}

#[test]
fn webp_vp8_too_short_payload_is_none() {
    // Exactly 30 bytes: the lossy payload is only 10 bytes long.
    let mut v = make_webp(10, 10);
    v[12..16].copy_from_slice(b"VP8 ");
    assert_eq!(webp_dimensions(&v), None);
}

#[test]
fn webp_unknown_chunk_is_none() {
    let mut v = make_webp(10, 10);
    v[12..16].copy_from_slice(b"ALPH");
    assert_eq!(webp_dimensions(&v), None);
}

#[test]
fn base64_roundtrip() {
    let data: Vec<u8> = (0u8..=255).collect();
    let enc = base64_encode(&data);
    let dec = base64_decode(&enc).expect("decode ok");
    assert_eq!(dec, data);
    assert!(base64_decode("!!!not base64!!!").is_err());
}

#[test]
fn base64_known_values() {
    assert_eq!(base64_encode(b""), "");
    assert_eq!(base64_encode(b"f"), "Zg==");
    assert_eq!(base64_encode(b"fo"), "Zm8=");
    assert_eq!(base64_encode(b"foo"), "Zm9v");
    assert_eq!(base64_encode(b"foobar"), "Zm9vYmFy");
    assert_eq!(base64_encode(&[0xfb, 0xff]), "+/8=");
}

#[test]
fn base64_decode_skips_padding_and_whitespace() {
    assert_eq!(base64_decode("Zm9v\r\nYmFy").unwrap(), b"foobar".to_vec());
    assert_eq!(base64_decode("Z m 8 =").unwrap(), b"fo".to_vec());
    assert_eq!(base64_decode("").unwrap(), Vec::<u8>::new());
    assert_eq!(base64_decode("Z").unwrap(), Vec::<u8>::new());
}

#[test]
fn base64_decode_error_message() {
    assert_eq!(base64_decode("Zm9v!").unwrap_err(), "base64 含非法字符");
    assert_eq!(base64_decode("Zm\t9v").unwrap_err(), "base64 含非法字符");
}

#[test]
fn compute_frame_standard_192x208_8cols() {
    let raw = raw_with_frame(
        "std",
        Some(RawFrame {
            width: 192,
            height: 208,
            cols: 8,
        }),
    );
    let f = compute_frame(&raw, Some((1536, 2288)));
    assert_eq!(
        f,
        PetFrameJson {
            width: 192,
            height: 208,
            cols: 8,
            rows: 11
        }
    );
}

#[test]
fn compute_frame_nonstandard_256x256_6cols() {
    let raw = raw_with_frame(
        "hd",
        Some(RawFrame {
            width: 256,
            height: 256,
            cols: 6,
        }),
    );
    let f = compute_frame(&raw, Some((1536, 2816)));
    assert_eq!(
        f,
        PetFrameJson {
            width: 256,
            height: 256,
            cols: 6,
            rows: 11
        }
    );
}

#[test]
fn compute_frame_declares_width_zero_falls_back_to_sheet() {
    let raw = raw_with_frame(
        "x",
        Some(RawFrame {
            width: 0,
            height: 200,
            cols: 5,
        }),
    );
    let f = compute_frame(&raw, Some((1000, 2000)));
    assert_eq!(f.width, 200);
    assert_eq!(f.height, 200);
    assert_eq!(f.cols, 5);
    assert_eq!(f.rows, 10);
}

#[test]
fn compute_frame_undeclared_derives_from_sheet() {
    let raw = raw_with_frame("def", None);
    let f = compute_frame(&raw, Some((1536, 2288)));
    assert_eq!(f.width, 192);
    assert_eq!(f.height, 208);
    assert_eq!(f.cols, 8);
    assert_eq!(f.rows, 11);
}

#[test]
fn compute_frame_zero_declarations_and_unknown_sheet() {
    let raw = raw_with_frame(
        "z",
        Some(RawFrame {
            width: 0,
            height: 0,
            cols: 0,
        }),
    );
    let f = compute_frame(&raw, None);
    assert_eq!(
        f,
        PetFrameJson {
            width: 192,
            height: 208,
            cols: 8,
            rows: 11
        }
    );
    let tall = raw_with_frame(
        "t",
        Some(RawFrame {
            width: 10,
            height: 5000,
            cols: 2,
        }),
    );
    assert_eq!(compute_frame(&tall, Some((20, 100))).rows, 1);
}

#[test]
fn build_pet_def_emits_per_pet_frame() {
    let raw = raw_with_frame(
        "e2e",
        Some(RawFrame {
            width: 256,
            height: 256,
            cols: 6,
        }),
    );
    let sheet = make_webp(1536, 2816);
    let def = build_pet_def(&raw, &sheet);
    assert_eq!(
        def.frame,
        PetFrameJson {
            width: 256,
            height: 256,
            cols: 6,
            rows: 11
        }
    );
    assert_eq!(def.idle.count, 6);
}

#[test]
fn build_pet_def_drops_actions_past_the_sheet() {
    // A 9-row sheet: the default `look` (row 9) goes, the rest stay.
    let raw = raw_with_frame(" nine ", None);
    let sheet = make_webp(1536, 208 * 9);
    let def = build_pet_def(&raw, &sheet);
    assert_eq!(def.frame.rows, 9);
    assert_eq!(def.id, "nine");
    assert_eq!(def.display_name, "nine");
    assert_eq!(def.description, "");
    let mut keys = Vec::new();
    for i in 0..def.actions.len() {
        let (k, v) = def.actions.entry(i);
        assert!(v.row < 9);
        keys.push(k.clone());
    }
    assert_eq!(
        keys,
        vec!["failed", "jump", "runningLeft", "runningRight", "waiting", "wave", "working"]
    );
    assert!(def.spritesheet.starts_with("data:image/webp;base64,"));
    assert_eq!(
        base64_decode(&def.spritesheet["data:image/webp;base64,".len()..]).unwrap(),
        sheet
    );
}

#[test]
fn build_pet_def_declared_sequences_are_corrected() {
    let mut actions = KeyedMap::new();
    actions.insert("zap".to_string(), RawSeq { row: 1, count: 0, fps: 0 });
    actions.insert("gone".to_string(), RawSeq { row: 50, count: 2, fps: 9 });
    actions.insert("big".to_string(), RawSeq { row: 0, count: 99, fps: 12 });
    let raw = RawPetJson {
        id: "p".to_string(),
        display_name: Some("Named".to_string()),
        description: Some("desc".to_string()),
        idle: Some(RawSeq { row: 40, count: 3, fps: 5 }),
        talk: Some(RawSeq { row: 30, count: 3, fps: 5 }),
        actions: Some(actions),
        frame: None,
    };
    // Garbage sheet: the 8×11 fallback applies.
    let def = build_pet_def(&raw, b"garbage");
    assert_eq!(def.frame.cols, 8);
    assert_eq!(def.frame.rows, 11);
    assert_eq!(def.idle, petbuddy::pet::model::seq(0, 6, 8));
    assert_eq!(def.talk, def.idle);
    assert_eq!(def.display_name, "Named");
    assert_eq!(def.description, "desc");
    assert_eq!(def.actions.len(), 2);
    let (k0, v0) = def.actions.entry(0);
    assert_eq!(k0, "big");
    assert_eq!(*v0, petbuddy::pet::model::seq(0, 8, 12));
    let (k1, v1) = def.actions.entry(1);
    assert_eq!(k1, "zap");
    assert_eq!(*v1, petbuddy::pet::model::seq(1, 8, 8));
}

#[test]
fn default_actions_are_in_key_order() {
    let m = default_actions();
    assert_eq!(m.len(), 8);
    let (k, v) = m.entry(6);
    assert_eq!(k, "wave");
    assert_eq!(*v, petbuddy::pet::model::seq(3, 4, 10));
}

#[test]
fn action_map_insert_replaces_equal_key() {
    let mut m = KeyedMap::new();
    m.insert("b".to_string(), 1u32);
    m.insert("a".to_string(), 2u32);
    m.insert("b".to_string(), 3u32);
    assert_eq!(m.len(), 2);
    assert_eq!(m.entry(0), (&"a".to_string(), &2u32));
    assert_eq!(m.entry(1), (&"b".to_string(), &3u32));
}

#[test]
fn valid_pet_id_rules() {
    assert!(is_valid_pet_id("miku"));
    assert!(is_valid_pet_id("ryujin-maru"));
    assert!(is_valid_pet_id("Pet_01"));
    assert!(!is_valid_pet_id(""));
    assert!(!is_valid_pet_id("a/b"));
    assert!(!is_valid_pet_id("../etc"));
    assert!(!is_valid_pet_id("a..b"));
    assert!(!is_valid_pet_id("中文"));
    assert!(!is_valid_pet_id("a b"));
}

#[test]
fn safe_join_blocks_traversal() {
    let root = std::path::Path::new("/data/pets");
    assert_eq!(
        safe_join(root, "miku").unwrap(),
        std::path::Path::new("/data/pets/miku")
    );
    assert!(safe_join(root, "../etc").is_err());
    assert!(safe_join(root, "").is_err());
    assert!(safe_join(root, "miku").unwrap().starts_with(root));
}

#[test]
fn safe_join_error_carries_code_and_id() {
    let root = std::path::Path::new("/data/pets");
    let e = safe_join(root, "a/b").unwrap_err();
    assert_eq!(e.code, petbuddy::error::ErrorCode::InvalidPetId);
    assert_eq!(e.message, "宠物 id 含非法字符或为空: a/b");
    assert_eq!(e.code.as_str(), "invalid_pet_id");
}

#[test]
fn clamp_seq_uses_real_cols() {
    let s = FrameSeqJson {
        row: 0,
        count: 20,
        fps: 12,
    };
    let r = clamp_seq(s.clone(), 11, 17).unwrap();
    assert_eq!(r.count, 17);
    assert_eq!(r.fps, 12);
    assert!(clamp_seq(FrameSeqJson { row: 99, count: 4, fps: 10 }, 1, 17).is_none());
    let s0 = FrameSeqJson {
        row: 0,
        count: 5,
        fps: 0,
    };
    assert_eq!(clamp_seq(s0, 11, 8).unwrap().fps, 8);
    let s1 = FrameSeqJson {
        row: 0,
        count: 0,
        fps: 8,
    };
    assert_eq!(clamp_seq(s1, 11, 8).unwrap().count, 8);
}

#[test]
fn clamp_seq_is_idempotent() {
    let once = clamp_seq(petbuddy::pet::model::seq(2, 30, 0), 5, 6).unwrap();
    assert_eq!(clamp_seq(once.clone(), 5, 6), Some(once));
}

#[test]
fn declared_zero_height_and_cols_fall_back_to_defaults() {
    let raw = raw_with_frame("z", Some(RawFrame { width: 192, height: 0, cols: 0 }));
    let f = compute_frame(&raw, Some((1536, 2288)));
    assert_eq!(f, PetFrameJson { width: 192, height: 208, cols: 8, rows: 11 });
}

#[test]
fn safe_join_gives_root_joined_with_a_valid_id() {
    let root = std::path::Path::new("/data/pets");
    let p = safe_join(root, "miku").unwrap();
    assert_eq!(p, std::path::Path::new("/data/pets/miku"));
    assert!(p.starts_with(root));
    assert_eq!(p.parent(), Some(root));
    assert!(safe_join(root, "").is_err());
    assert!(safe_join(root, "../etc").is_err());
}

#[test]
fn base64_length_and_padding() {
    for n in 0..12usize {
        let data: Vec<u8> = (0..n as u8).collect();
        let s = base64_encode(&data);
        assert_eq!(s.len(), 4 * ((n + 2) / 3));
        let pads = s.chars().rev().take_while(|c| *c == '=').count();
        assert_eq!(pads, if n % 3 == 0 { 0 } else { 3 - n % 3 });
    }
}

#[test]
fn base64_decode_ignores_padding_and_whitespace_only() {
    assert_eq!(base64_decode("aGk=").unwrap(), base64_decode("a G\nk\r").unwrap());
    assert!(base64_decode("aG\tk").is_err());
    assert!(base64_decode("aG!k").is_err());
}

#[test]
fn clamp_seq_count_becomes_zero_returns_none() {
    let s = FrameSeqJson { row: 0, count: 4, fps: 10 };
    assert_eq!(clamp_seq(s, 11, 0), None);
}

//! The pet definition model: frame sequences, frame geometry, the raw
//! `pet.json` shape, and how a definition is assembled from a raw
//! `pet.json` plus the sprite-sheet bytes.

use vstd::prelude::*;

use crate::keyed_map::{KeyedMap, key_lt, keys_ascending};
use crate::pet::codec::{b64_encode, base64_encode, webp_dimensions, webp_size};
use crate::pet::validator::{clamp_seq, clamped, fits};
use crate::text::{trim, trim_str};

verus! {

/// One animation: `count` consecutive frames of row `row`, at `fps` frames per second.
#[derive(Clone, Copy, Debug, PartialEq, Eq, Structural)]
pub struct FrameSeqJson {
    pub row: u32,
    pub count: u32,
    pub fps: u32,
}

/// The geometry of one frame of a sprite sheet (pixels) and the sheet's grid.
#[derive(Clone, Copy, Debug, PartialEq, Eq, Structural)]
pub struct PetFrameJson {
    pub width: u32,
    pub height: u32,
    pub cols: u32,
    pub rows: u32,
}

/// The frame geometry a `pet.json` may declare.
#[derive(Clone, Copy, Debug, PartialEq, Eq, Structural)]
pub struct RawFrame {
    pub width: u32,
    pub height: u32,
    pub cols: u32,
}

/// A frame sequence as a `pet.json` declares it.
#[derive(Clone, Copy, Debug, PartialEq, Eq, Structural)]
pub struct RawSeq {
    pub row: u32,
    pub count: u32,
    pub fps: u32,
}

/// A `pet.json` as read from a package, before any correction.
pub struct RawPetJson {
    pub id: String,
    pub display_name: Option<String>,
    pub description: Option<String>,
    pub idle: Option<RawSeq>,
    pub talk: Option<RawSeq>,
    pub actions: Option<KeyedMap<RawSeq>>,
    /// Optional frame geometry; when absent it is derived from the sheet.
    pub frame: Option<RawFrame>,
}

/// A frame sequence.
pub fn seq(row: u32, count: u32, fps: u32) -> (s: FrameSeqJson)
    ensures
        s == (FrameSeqJson { row, count, fps }),
{
    FrameSeqJson { row, count, fps }
}

/// Default frame height assumed when a package does not declare one.
pub const FRAME_H: u32 = 208;

/// Default column count assumed when a package does not declare one.
pub const FRAME_COLS: u32 = 8;

/// Sheet size assumed when the sprite sheet's size cannot be read: 8 columns
/// by 11 rows of 192×208 frames.
pub open spec fn fallback_sheet() -> (u32, u32) {
    (1536u32, 2288u32)
}

/// The frame geometry of a pet: declared values first (a zero height or
/// column count falls back to the default, a zero width to sheet width over
/// columns); rows are the sheet height over the frame height, at least one.
pub open spec fn frame_of(declared: Option<RawFrame>, sheet: Option<(u32, u32)>) -> PetFrameJson {
    let (sheet_w, sheet_h) = match sheet {
        Some(p) => p,
        None => fallback_sheet(),
    };
    let frame_h: u32 = match declared {
        Some(f) => if f.height == 0 { FRAME_H } else { f.height },
        None => FRAME_H,
    };
    let cols: u32 = match declared {
        Some(f) => if f.cols == 0 { FRAME_COLS } else { f.cols },
        None => FRAME_COLS,
    };
    let frame_w: u32 = match declared {
        Some(f) => if f.width == 0 { (sheet_w / cols) as u32 } else { f.width },
        None => (sheet_w / cols) as u32,
    };
    let rows: u32 = if sheet_h / frame_h == 0 { 1 } else { (sheet_h / frame_h) as u32 };
    PetFrameJson { width: frame_w, height: frame_h, cols, rows }
}

/// Computes the frame geometry of a pet from its declaration and the
/// sprite sheet's measured size (`None` when the size could not be read).
pub fn compute_frame(raw: &RawPetJson, sheet: Option<(u32, u32)>) -> (f: PetFrameJson)
    ensures
        f == frame_of(raw.frame, sheet),
        f.height >= 1,
        f.cols >= 1,
        f.rows >= 1,
{
    let (sheet_w, sheet_h) = match sheet {
        Some(p) => p,
        None => (192 * 8, 208 * 11),
    };
    let frame_h: u32 = match &raw.frame {
        Some(f) => if f.height == 0 { FRAME_H } else { f.height },
        None => FRAME_H,
    };
    let cols: u32 = match &raw.frame {
        Some(f) => if f.cols == 0 { FRAME_COLS } else { f.cols },
        None => FRAME_COLS,
    };
    let frame_w: u32 = match &raw.frame {
        Some(f) => if f.width == 0 { sheet_w / cols } else { f.width },
        None => sheet_w / cols,
    };
    let rows: u32 = if sheet_h / frame_h == 0 { 1 } else { sheet_h / frame_h };
    PetFrameJson { width: frame_w, height: frame_h, cols, rows }
}


/// The standard action set used when a package declares none (Codex Pet V2
/// rows), in key order.
pub open spec fn default_action_entries() -> Seq<(Seq<char>, FrameSeqJson)> {
    seq![
        ("failed"@, FrameSeqJson { row: 5, count: 8, fps: 10 }),
        ("jump"@, FrameSeqJson { row: 4, count: 5, fps: 10 }),
        ("look"@, FrameSeqJson { row: 9, count: 8, fps: 8 }),
        ("runningLeft"@, FrameSeqJson { row: 2, count: 8, fps: 10 }),
        ("runningRight"@, FrameSeqJson { row: 1, count: 8, fps: 10 }),
        ("waiting"@, FrameSeqJson { row: 6, count: 6, fps: 8 }),
        ("wave"@, FrameSeqJson { row: 3, count: 4, fps: 10 }),
        ("working"@, FrameSeqJson { row: 7, count: 6, fps: 8 }),
    ]
}

/// The standard action set (fallback when `pet.json` declares no actions).
pub fn default_actions() -> (m: KeyedMap<FrameSeqJson>)
    ensures
        m.view() == default_action_entries(),
{
    proof {
        reveal_strlit("failed");
        reveal_strlit("jump");
        reveal_strlit("look");
        reveal_strlit("runningLeft");
        reveal_strlit("runningRight");
        reveal_strlit("waiting");
        reveal_strlit("wave");
        reveal_strlit("working");
        reveal_with_fuel(key_lt, 9);
    }
    let mut m = KeyedMap::new();
    m.push_greatest(String::from_str("failed"), seq(5, 8, 10));
    m.push_greatest(String::from_str("jump"), seq(4, 5, 10));
    m.push_greatest(String::from_str("look"), seq(9, 8, 8));
    m.push_greatest(String::from_str("runningLeft"), seq(2, 8, 10));
    m.push_greatest(String::from_str("runningRight"), seq(1, 8, 10));
    m.push_greatest(String::from_str("waiting"), seq(6, 6, 8));
    m.push_greatest(String::from_str("wave"), seq(3, 4, 10));
    m.push_greatest(String::from_str("working"), seq(7, 6, 8));
    proof {
        assert(m.view() =~= default_action_entries());
    }
    m
}


/// A pet definition as handed to the front end.
pub struct PetDefJson {
    pub id: String,
    pub display_name: String,
    pub description: String,
    /// The sprite sheet as a `data:` URL.
    pub spritesheet: String,
    pub idle: FrameSeqJson,
    pub talk: FrameSeqJson,
    pub actions: KeyedMap<FrameSeqJson>,
    /// The real frame geometry of this pet's sheet.
    pub frame: PetFrameJson,
}

/// A declared sequence as a frame sequence.
pub open spec fn seq_of(r: RawSeq) -> FrameSeqJson {
    FrameSeqJson { row: r.row, count: r.count, fps: r.fps }
}

/// Declared actions as frame sequences, keys unchanged.
pub open spec fn seqs_of(entries: Seq<(Seq<char>, RawSeq)>) -> Seq<(Seq<char>, FrameSeqJson)> {
    entries.map_values(|e: (Seq<char>, RawSeq)| (e.0, seq_of(e.1)))
}

/// The corrected actions: each sequence corrected against the sheet, those
/// whose row is past the sheet dropped, order kept.
pub open spec fn clamp_entries(entries: Seq<(Seq<char>, FrameSeqJson)>, rows: u32, cols: u32) -> Seq<
    (Seq<char>, FrameSeqJson),
>
    decreases entries.len(),
{
    if entries.len() == 0 {
        seq![]
    } else {
        let prev = clamp_entries(entries.drop_last(), rows, cols);
        match clamped(entries.last().1, rows, cols) {
            Some(c) => prev.push((entries.last().0, c)),
            None => prev,
        }
    }
}

/// The idle sequence: the declared one (default row 0, 6 frames at 8 fps)
/// corrected; if its row is past the sheet, row 0 with at most 6 frames.
pub open spec fn idle_of(raw_idle: Option<RawSeq>, frame: PetFrameJson) -> FrameSeqJson {
    let declared = match raw_idle {
        Some(r) => seq_of(r),
        None => FrameSeqJson { row: 0, count: 6, fps: 8 },
    };
    match clamped(declared, frame.rows, frame.cols) {
        Some(c) => c,
        None => FrameSeqJson { row: 0, count: if frame.cols < 6 { frame.cols } else { 6 }, fps: 8 },
    }
}

/// The talk sequence: the declared one (default row 3, 4 frames at 10 fps)
/// corrected; if its row is past the sheet, the idle sequence.
pub open spec fn talk_of(raw_talk: Option<RawSeq>, idle: FrameSeqJson, frame: PetFrameJson) -> FrameSeqJson {
    let declared = match raw_talk {
        Some(r) => seq_of(r),
        None => FrameSeqJson { row: 3, count: 4, fps: 10 },
    };
    match clamped(declared, frame.rows, frame.cols) {
        Some(c) => c,
        None => idle,
    }
}

/// The declared actions, or the standard set when none are declared.
pub open spec fn source_actions(raw: Option<KeyedMap<RawSeq>>) -> Seq<(Seq<char>, FrameSeqJson)> {
    match raw {
        Some(m) => seqs_of(m.view()),
        None => default_action_entries(),
    }
}

/// The prefix of the sprite sheet's `data:` URL.
pub open spec fn data_url_prefix() -> Seq<char> {
    "data:image/webp;base64,"@
}

/// Corrects every action of `src` against the sheet, keeping key order.
fn clamp_actions(src: &KeyedMap<FrameSeqJson>, rows: u32, cols: u32) -> (out: KeyedMap<FrameSeqJson>)
    ensures
        out.view() == clamp_entries(src.view(), rows, cols),
{
    let n = src.len();
    let mut out = KeyedMap::new();
    let mut i: usize = 0;
    proof {
        assert(src.view().take(0) =~= Seq::<(Seq<char>, FrameSeqJson)>::empty());
    }
    while i < n
        invariant
            n == src.view().len(),
            keys_ascending(src.view()),
            i <= n,
            out.view() == clamp_entries(src.view().take(i as int), rows, cols),
            out.view().len() > 0 ==> exists|j: int|
                0 <= j < i && out.view().last().0 == #[trigger] src.view()[j].0,
        decreases n - i,
    {
        let (k, v) = src.entry(i);
        let ghost before = out.view();
        proof {
            assert(src.view().take(i + 1).drop_last() =~= src.view().take(i as int));
            assert(src.view().take(i + 1).last() == src.view()[i as int]);
        }
        match clamp_seq(*v, rows, cols) {
            Some(c) => {
                proof {
                    if before.len() > 0 {
                        let j = choose|j: int| 0 <= j < i && before.last().0 == #[trigger] src.view()[j].0;
                        assert(key_lt(src.view()[j].0, src.view()[i as int].0));
                    }
                }
                out.push_greatest(k.clone(), c);
            },
            None => {},
        }
        i = i + 1;
    }
    proof {
        assert(src.view().take(n as int) =~= src.view());
    }
    out
}

/// The declared actions as frame sequences (keys and order unchanged).
fn actions_as_seqs(src: &KeyedMap<RawSeq>) -> (out: KeyedMap<FrameSeqJson>)
    ensures
        out.view() == seqs_of(src.view()),
{
    let n = src.len();
    let mut out = KeyedMap::new();
    let mut i: usize = 0;
    while i < n
        invariant
            n == src.view().len(),
            keys_ascending(src.view()),
            i <= n,
            out.view() == seqs_of(src.view().take(i as int)),
        decreases n - i,
    {
        let (k, r) = src.entry(i);
        proof {
            if i > 0 {
                assert(key_lt(src.view()[i - 1].0, src.view()[i as int].0));
            }
        }
        out.push_greatest(k.clone(), seq(r.row, r.count, r.fps));
        proof {
            assert(seqs_of(src.view().take(i + 1)) =~= seqs_of(src.view().take(i as int)).push(
                (src.view()[i as int].0, seq_of(src.view()[i as int].1)),
            ));
        }
        i = i + 1;
    }
    proof {
        assert(src.view().take(n as int) =~= src.view());
    }
    out
}

/// Assembles a pet definition from its `pet.json` and sprite-sheet bytes.
///
/// The sheet's real size (from its WebP header) gives the frame geometry;
/// every sequence is then corrected so that it fits the sheet: actions whose
/// row is past the sheet are dropped, counts past a row are cut to the row.
pub fn build_pet_def(raw: &RawPetJson, spritesheet_bytes: &[u8]) -> (def: PetDefJson)
    ensures
        def.frame == frame_of(raw.frame, webp_size(spritesheet_bytes@)),
        def.idle == idle_of(raw.idle, def.frame),
        def.talk == talk_of(raw.talk, def.idle, def.frame),
        def.actions.view() == clamp_entries(
            source_actions(raw.actions),
            def.frame.rows,
            def.frame.cols,
        ),
        def.id@ == trim(raw.id@),
        def.display_name@ == (match raw.display_name {
            Some(n) => n@,
            None => trim(raw.id@),
        }),
        def.description@ == (match raw.description {
            Some(d) => d@,
            None => Seq::<char>::empty(),
        }),
        def.spritesheet@ == data_url_prefix() + b64_encode(spritesheet_bytes@),
{
    let sheet = webp_dimensions(spritesheet_bytes);
    let frame = compute_frame(raw, sheet);
    let idle_raw = match &raw.idle {
        Some(r) => seq(r.row, r.count, r.fps),
        None => seq(0, 6, 8),
    };
    let talk_raw = match &raw.talk {
        Some(r) => seq(r.row, r.count, r.fps),
        None => seq(3, 4, 10),
    };
    let actions_raw = match &raw.actions {
        Some(m) => actions_as_seqs(m),
        None => default_actions(),
    };
    let idle = match clamp_seq(idle_raw, frame.rows, frame.cols) {
        Some(c) => c,
        None => seq(0, if frame.cols < 6 { frame.cols } else { 6 }, 8),
    };
    let talk = match clamp_seq(talk_raw, frame.rows, frame.cols) {
        Some(c) => c,
        None => idle,
    };
    let actions = clamp_actions(&actions_raw, frame.rows, frame.cols);
    let id = String::from_str(trim_str(raw.id.as_str()));
    let display_name = match &raw.display_name {
        Some(n) => n.clone(),
        None => String::from_str(trim_str(raw.id.as_str())),
    };
    let description = match &raw.description {
        Some(d) => d.clone(),
        None => String::new(),
    };
    let mut spritesheet = String::from_str("data:image/webp;base64,");
    let encoded = base64_encode(spritesheet_bytes);
    spritesheet.append(encoded.as_str());
    PetDefJson { id, display_name, description, spritesheet, idle, talk, actions, frame }
}

/// Without a declared frame, a sheet is cut into 8 columns of 208-pixel
/// rows (frame width the sheet width over 8, at least one row); a sheet of
/// unknown size counts as 8 × 11 frames of 192 × 208. Declared non-zero
/// width, height and columns are taken as they are.
pub proof fn lemma_frame_geometry(declared: Option<RawFrame>, sheet: Option<(u32, u32)>)
    ensures
        declared is None && sheet is None ==> frame_of(declared, sheet) == (PetFrameJson {
            width: 192,
            height: 208,
            cols: 8,
            rows: 11,
        }),
        declared is None ==> (sheet matches Some(p) ==> frame_of(declared, sheet) == (
        PetFrameJson {
            width: (p.0 / 8) as u32,
            height: 208,
            cols: 8,
            rows: if p.1 < 208 { 1 } else { (p.1 / 208) as u32 },
        })),
        declared is Some && declared->0.width > 0 && declared->0.height > 0 && declared->0.cols
            > 0 ==> ({
            let f = declared->0;
            let fr = frame_of(declared, sheet);
            let sh: u32 = match sheet {
                Some(p) => p.1,
                None => 2288u32,
            };
            &&& fr.width == f.width
            &&& fr.height == f.height
            &&& fr.cols == f.cols
            &&& fr.rows == if sh < f.height { 1 } else { (sh / f.height) as u32 }
        }),
{
    assert(1536u32 / 8u32 == 192u32);
    assert(2288u32 / 208u32 == 11u32);
    if declared is Some {
        let fh = declared->0.height as int;
        let sh: int = match sheet {
            Some(p) => p.1 as int,
            None => 2288,
        };
        if fh > 0 {
            assert(sh >= 0);
            assert((sh / fh == 0) == (sh < fh)) by (nonlinear_arith)
                requires
                    fh > 0,
                    sh >= 0,
            ;
        }
    }
}

/// A package that declares no actions gets the standard set: on a sheet of
/// at least 10 rows and 8 columns, `failed` (row 5, 8 frames, 10 fps),
/// `jump` (4, 5, 10), `look` (9, 8, 8), `runningLeft` (2, 8, 10),
/// `runningRight` (1, 8, 10), `waiting` (6, 6, 8), `wave` (3, 4, 10) and
/// `working` (7, 6, 8), in that key order and uncut.
pub proof fn lemma_default_actions_on_standard_sheet(rows: u32, cols: u32)
    requires
        rows >= 10,
        cols >= 8,
    ensures
        clamp_entries(source_actions(None), rows, cols) == seq![
            ("failed"@, FrameSeqJson { row: 5, count: 8, fps: 10 }),
            ("jump"@, FrameSeqJson { row: 4, count: 5, fps: 10 }),
            ("look"@, FrameSeqJson { row: 9, count: 8, fps: 8 }),
            ("runningLeft"@, FrameSeqJson { row: 2, count: 8, fps: 10 }),
            ("runningRight"@, FrameSeqJson { row: 1, count: 8, fps: 10 }),
            ("waiting"@, FrameSeqJson { row: 6, count: 6, fps: 8 }),
            ("wave"@, FrameSeqJson { row: 3, count: 4, fps: 10 }),
            ("working"@, FrameSeqJson { row: 7, count: 6, fps: 8 }),
        ],
{
    let e = default_action_entries();
    assert forall|k: int| 0 <= k < e.len() implies clamped(#[trigger] e[k].1, rows, cols) == Some(
        e[k].1,
    ) by {
        assert(0 <= k < 8);
        if k == 0 {
        } else if k == 1 {
        } else if k == 2 {
        } else if k == 3 {
        } else if k == 4 {
        } else if k == 5 {
        } else if k == 6 {
        } else {
            assert(k == 7);
        }
    }
    lemma_clamp_entries_unchanged(e, rows, cols);
}

/// Correction leaves alone a list of sequences that each fit already.
proof fn lemma_clamp_entries_unchanged(e: Seq<(Seq<char>, FrameSeqJson)>, rows: u32, cols: u32)
    requires
        forall|k: int| 0 <= k < e.len() ==> clamped(#[trigger] e[k].1, rows, cols) == Some(e[k].1),
    ensures
        clamp_entries(e, rows, cols) == e,
    decreases e.len(),
{
    if e.len() > 0 {
        let p = e.drop_last();
        assert forall|k: int| 0 <= k < p.len() implies clamped(#[trigger] p[k].1, rows, cols) == Some(
            p[k].1,
        ) by {
            assert(p[k] == e[k]);
        }
        lemma_clamp_entries_unchanged(p, rows, cols);
        assert(clamped(e[e.len() - 1].1, rows, cols) == Some(e[e.len() - 1].1));
        assert(p.push(e.last()) =~= e);
    }
}

/// The idle and talk sequences of a definition. Undeclared, idle is row 0
/// with 6 frames at 8 fps (fewer frames on a narrower sheet) and talk is
/// row 3 with 4 frames at 10 fps (fewer on a narrower sheet), or the idle
/// sequence on a sheet of fewer than 4 rows. A declared sequence that fits
/// the sheet is kept as declared; one whose row is past the sheet gives way
/// to the default idle (for idle) or to the idle sequence (for talk).
pub proof fn lemma_pet_def_idle_and_talk(
    raw_idle: Option<RawSeq>,
    raw_talk: Option<RawSeq>,
    frame: PetFrameJson,
)
    requires
        frame.rows >= 1,
        frame.cols >= 1,
    ensures
        ({
            let idle = idle_of(raw_idle, frame);
            let talk = talk_of(raw_talk, idle, frame);
            let narrow_idle = FrameSeqJson {
                row: 0,
                count: if frame.cols < 6 { frame.cols } else { 6 },
                fps: 8,
            };
            &&& raw_idle is None ==> idle == narrow_idle
            &&& raw_idle is Some && raw_idle->0.row < frame.rows && 1 <= raw_idle->0.count <= frame.cols
                && raw_idle->0.fps >= 1 ==> idle == (FrameSeqJson { row: raw_idle->0.row, count: raw_idle->0.count, fps: raw_idle->0.fps })
            &&& raw_idle is Some && raw_idle->0.row >= frame.rows ==> idle == narrow_idle
            &&& raw_talk is None && frame.rows >= 4 ==> talk == (FrameSeqJson {
                row: 3,
                count: if frame.cols < 4 { frame.cols } else { 4 },
                fps: 10,
            })
            &&& raw_talk is None && frame.rows < 4 ==> talk == idle
            &&& raw_talk is Some && raw_talk->0.row < frame.rows && 1 <= raw_talk->0.count <= frame.cols
                && raw_talk->0.fps >= 1 ==> talk == (FrameSeqJson { row: raw_talk->0.row, count: raw_talk->0.count, fps: raw_talk->0.fps })
            &&& raw_talk is Some && raw_talk->0.row >= frame.rows ==> talk == idle
        }),
{
}

/// Every corrected action fits the sheet.
pub proof fn lemma_clamp_entries_fit(entries: Seq<(Seq<char>, FrameSeqJson)>, rows: u32, cols: u32)
    ensures
        forall|i: int|
            0 <= i < clamp_entries(entries, rows, cols).len() ==> fits(
                #[trigger] clamp_entries(entries, rows, cols)[i].1,
                rows,
                cols,
            ),
    decreases entries.len(),
{
    if entries.len() > 0 {
        let prev = clamp_entries(entries.drop_last(), rows, cols);
        lemma_clamp_entries_fit(entries.drop_last(), rows, cols);
        crate::pet::validator::lemma_clamped_fits(entries.last().1, rows, cols);
        let all = clamp_entries(entries, rows, cols);
        assert forall|i: int| 0 <= i < all.len() implies fits(#[trigger] all[i].1, rows, cols) by {
            if i < prev.len() {
                assert(all[i] == prev[i]);
            }
        }
    }
}

/// On a sheet with columns, an action survives correction exactly when its
/// row lies on the sheet.
pub proof fn lemma_clamp_entries_keeps_rows_on_sheet(
    entries: Seq<(Seq<char>, FrameSeqJson)>,
    rows: u32,
    cols: u32,
)
    requires
        cols >= 1,
    ensures
        clamp_entries(entries, rows, cols).len() <= entries.len(),
        (forall|i: int| 0 <= i < entries.len() ==> #[trigger] entries[i].1.row < rows)
            ==> clamp_entries(entries, rows, cols).len() == entries.len(),
    decreases entries.len(),
{
    if entries.len() > 0 {
        lemma_clamp_entries_keeps_rows_on_sheet(entries.drop_last(), rows, cols);
        if forall|i: int| 0 <= i < entries.len() ==> #[trigger] entries[i].1.row < rows {
            assert forall|i: int| 0 <= i < entries.drop_last().len() implies #[trigger] entries.drop_last()[i].1.row < rows by {
                assert(entries.drop_last()[i] == entries[i]);
            }
        }
    }
}

/// Whatever a package declares, every sequence of the assembled definition
/// fits its sprite sheet: the idle, talk and every action play frames that
/// exist, so the pet never renders an empty canvas.
pub proof fn lemma_pet_def_fits_sheet(raw: RawPetJson, sheet: Option<(u32, u32)>)
    ensures
        ({
            let frame = frame_of(raw.frame, sheet);
            let idle = idle_of(raw.idle, frame);
            let talk = talk_of(raw.talk, idle, frame);
            let actions = clamp_entries(source_actions(raw.actions), frame.rows, frame.cols);
            &&& fits(idle, frame.rows, frame.cols)
            &&& fits(talk, frame.rows, frame.cols)
            &&& forall|i: int| 0 <= i < actions.len() ==> fits(#[trigger] actions[i].1, frame.rows, frame.cols)
        }),
{
    let frame = frame_of(raw.frame, sheet);
    lemma_clamp_entries_fit(source_actions(raw.actions), frame.rows, frame.cols);
}

/// Each corrected action comes from a source action of the same key whose
/// correction it is, and each source action that survives correction is
/// there with its corrected sequence.
proof fn lemma_clamp_entries_members(e: Seq<(Seq<char>, FrameSeqJson)>, rows: u32, cols: u32)
    ensures
        forall|i: int|
            0 <= i < clamp_entries(e, rows, cols).len() ==> exists|j: int|
                0 <= j < e.len() && (#[trigger] clamp_entries(e, rows, cols)[i]).0 == e[j].0
                    && clamped(e[j].1, rows, cols) == Some(clamp_entries(e, rows, cols)[i].1),
        forall|j: int|
            0 <= j < e.len() && (#[trigger] clamped(e[j].1, rows, cols)) is Some ==> exists|i: int|
                0 <= i < clamp_entries(e, rows, cols).len() && clamp_entries(e, rows, cols)[i]
                    == (e[j].0, clamped(e[j].1, rows, cols)->0),
    decreases e.len(),
{
    if e.len() > 0 {
        let p = e.drop_last();
        lemma_clamp_entries_members(p, rows, cols);
        let prev = clamp_entries(p, rows, cols);
        let out = clamp_entries(e, rows, cols);
        assert forall|i: int| 0 <= i < out.len() implies exists|j: int|
            0 <= j < e.len() && (#[trigger] out[i]).0 == e[j].0 && clamped(e[j].1, rows, cols)
                == Some(out[i].1) by {
            if i < prev.len() {
                assert(out[i] == prev[i]);
                let j = choose|j: int|
                    0 <= j < p.len() && (#[trigger] prev[i]).0 == p[j].0 && clamped(p[j].1, rows, cols)
                        == Some(prev[i].1);
                assert(e[j] == p[j]);
            } else {
                assert(e[e.len() - 1] == e.last());
            }
        }
        assert forall|j: int|
            0 <= j < e.len() && (#[trigger] clamped(e[j].1, rows, cols)) is Some implies exists|i: int|
                0 <= i < out.len() && out[i] == (e[j].0, clamped(e[j].1, rows, cols)->0) by {
            if j < p.len() {
                assert(e[j] == p[j]);
                assert(clamped(p[j].1, rows, cols) is Some);
                let i = choose|i: int|
                    0 <= i < prev.len() && prev[i] == (p[j].0, clamped(p[j].1, rows, cols)->0);
                assert(out[i] == prev[i]);
            } else {
                assert(e[j] == e.last());
                assert(out[out.len() - 1] == (e.last().0, clamped(e.last().1, rows, cols)->0));
            }
        }
    }
}

/// The actions of an assembled definition are the source actions (the
/// declared ones, or the standard set) whose row lies on the sheet, each
/// with its corrected sequence, under its own key: every action comes from
/// a source action of that key and is its correction, and every source
/// action whose correction exists is present.
pub proof fn lemma_pet_def_actions(raw: RawPetJson, sheet: Option<(u32, u32)>)
    ensures
        ({
            let frame = frame_of(raw.frame, sheet);
            let src = source_actions(raw.actions);
            let actions = clamp_entries(src, frame.rows, frame.cols);
            &&& forall|i: int|
                0 <= i < actions.len() ==> exists|j: int|
                    0 <= j < src.len() && (#[trigger] actions[i]).0 == src[j].0 && clamped(
                        src[j].1,
                        frame.rows,
                        frame.cols,
                    ) == Some(actions[i].1)
            &&& forall|j: int|
                0 <= j < src.len() && src[j].1.row < frame.rows ==> exists|i: int|
                    0 <= i < actions.len() && #[trigger] actions[i] == (
                        src[j].0,
                        clamped(src[j].1, frame.rows, frame.cols)->0,
                    )
        }),
{
    let frame = frame_of(raw.frame, sheet);
    let src = source_actions(raw.actions);
    lemma_clamp_entries_members(src, frame.rows, frame.cols);
    assert forall|j: int| 0 <= j < src.len() && src[j].1.row < frame.rows implies exists|i: int|
        0 <= i < clamp_entries(src, frame.rows, frame.cols).len() && #[trigger] clamp_entries(
            src,
            frame.rows,
            frame.cols,
        )[i] == (src[j].0, clamped(src[j].1, frame.rows, frame.cols)->0) by {
        assert(clamped(src[j].1, frame.rows, frame.cols) is Some);
    }
}

} // verus!

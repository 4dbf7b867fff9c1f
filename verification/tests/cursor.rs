use luminal_vgd::proto::{cursor_kind, cursor_section_size, CURSOR_MAGIC, CURSOR_SHAPE_OFFSET};
use luminal_vgd::shell::cursor::{
    compact_rows, cursor_created, setup_variant, take_shape, CursorQuery, CursorWorker, Shape,
    ShapeInfo, XorSupport, PHASE_ASSIGN, PHASE_PLUG,
};
use luminal_vgd::shell::sections::Store;

fn put(mem: &mut [u8], stores: &[Store]) {
    for s in stores {
        mem[s.offset..s.offset + s.bytes.len()].copy_from_slice(&s.bytes);
    }
}

fn word(mem: &[u8], at: usize) -> u32 {
    u32::from_le_bytes([mem[at], mem[at + 1], mem[at + 2], mem[at + 3]])
}

fn info(width: u32, height: u32, pitch: u32) -> ShapeInfo {
    ShapeInfo {
        shape_id: 5,
        masked: false,
        width,
        height,
        pitch,
        hotspot_x: 1,
        hotspot_y: 2,
    }
}

fn query(shape: Option<ShapeInfo>) -> CursorQuery {
    CursorQuery { x: -3, y: 40, visible: true, shape }
}

#[test]
fn setup_tries_once_at_plug_and_three_times_later() {
    assert_eq!(setup_variant(PHASE_PLUG, 0), Some(XorSupport::Emulation));
    assert_eq!(setup_variant(PHASE_PLUG, 1), None);
    assert_eq!(setup_variant(PHASE_ASSIGN, 0), Some(XorSupport::Emulation));
    assert_eq!(setup_variant(PHASE_ASSIGN, 1), Some(XorSupport::Full));
    assert_eq!(setup_variant(PHASE_ASSIGN, 2), Some(XorSupport::Unsupported));
    assert_eq!(setup_variant(PHASE_ASSIGN, 3), None);
}

#[test]
fn shapes_are_clamped_and_bad_ones_refused() {
    let s = take_shape(&info(300, 300, 1200), 300 * 1200).unwrap();
    assert_eq!((s.width, s.height, s.pitch), (256, 256, 1200));
    assert_eq!(s.kind, cursor_kind::ALPHA);
    assert_eq!(take_shape(&ShapeInfo { masked: true, ..info(2, 2, 8) }, 16).unwrap().kind, cursor_kind::MASKED);
    assert!(take_shape(&info(0, 4, 16), 64).is_none());
    assert!(take_shape(&info(4, 0, 16), 64).is_none());
    assert!(take_shape(&info(4, 4, 15), 64).is_none(), "rows overlap");
    assert!(take_shape(&info(4, 4, 16), 63).is_none(), "more rows than bytes");
    assert!(take_shape(&info(4, 4, 16), 64).is_some());
    assert!(take_shape(&info(1, 256, u32::MAX), usize::MAX / 2).is_some());
}

#[test]
fn rows_are_packed() {
    let shape = Shape { kind: 1, width: 1, height: 2, hotspot_x: 0, hotspot_y: 0, pitch: 6 };
    let rows = [1u8, 2, 3, 4, 90, 91, 5, 6, 7, 8, 92, 93];
    assert_eq!(compact_rows(&shape, &rows), vec![1, 2, 3, 4, 5, 6, 7, 8]);
}

#[test]
fn half_stored_shape_shows_and_a_whole_one_moves_the_generation() {
    let mut mem = vec![0u8; cursor_section_size()];
    put(&mut mem, &cursor_created());
    assert_eq!(word(&mem, 0), CURSOR_MAGIC);
    assert_eq!(word(&mem, 4), 1);
    assert_eq!(cursor_created().last().unwrap().offset, 0);

    let mut w = CursorWorker::new();
    let pixels = [1u8, 2, 3, 4, 5, 6, 7, 8];
    let step = w.queried(0, &query(Some(info(1, 2, 4))), &pixels, word(&mem, 8), 77);
    assert!(!step.report_failure);
    assert_eq!(w.last_shape_id, 5);
    assert_eq!(step.stores.len(), 8 + 4);
    for (k, s) in step.stores[..8].iter().enumerate() {
        if k > 0 {
            assert_eq!(word(&mem, 8) % 2, 1, "odd before store {k}");
        }
        put(&mut mem, std::slice::from_ref(s));
    }
    assert_eq!(word(&mem, 8), 2);
    put(&mut mem, &step.stores[8..]);
    assert_eq!(word(&mem, 8), 2, "a position leaves the shape alone");
    assert_eq!((word(&mem, 12), word(&mem, 16)), (1, 2));
    assert_eq!((word(&mem, 20), word(&mem, 24), word(&mem, 28)), (1, 2, 1));
    assert_eq!(word(&mem, 32) as i32, -3);
    assert_eq!(word(&mem, 36), 40);
    assert_eq!(word(&mem, 40), 1);
    assert_eq!(word(&mem, 48), 77);
    assert_eq!(mem[CURSOR_SHAPE_OFFSET..CURSOR_SHAPE_OFFSET + 8], pixels);
}

#[test]
fn generation_wraps_and_recovers_from_odd() {
    let mut w = CursorWorker::new();
    let pixels = [0u8; 4];
    let step = w.queried(0, &query(Some(info(1, 1, 4))), &pixels, u32::MAX, 0);
    assert_eq!(step.stores[0].bytes, u32::MAX.to_le_bytes());
    assert_eq!(step.stores[7].bytes, 0u32.to_le_bytes());
    let step = w.queried(0, &query(Some(info(1, 1, 4))), &pixels, 7, 0);
    assert_eq!(step.stores[0].bytes, 7u32.to_le_bytes());
    assert_eq!(step.stores[7].bytes, 8u32.to_le_bytes());
}

#[test]
fn failed_queries_are_reported_once_and_refused_shapes_keep_the_old_id() {
    let mut w = CursorWorker::new();
    assert!(w.queried(-1, &query(None), &[], 0, 0).report_failure);
    let again = w.queried(-1, &query(None), &[], 0, 0);
    assert!(!again.report_failure);
    assert!(again.stores.is_empty());
    let step = w.queried(0, &query(Some(info(0, 0, 0))), &[], 0, 0);
    assert_eq!(step.stores.len(), 4, "only the position");
    assert_eq!(w.last_shape_id, 0);
    assert!(w.queried(-1, &query(None), &[], 0, 0).report_failure);
}

use luminal_vgd::proto::{ring_section_size, ring_state, slot_state, RingHeader, RING_MAGIC, RING_SLOTS_OFFSET};
use luminal_vgd::shell::sections::{
    heartbeat, reset_slot_free, reset_slots, ring_created, set_generation, set_state, slot_offset,
    slot_published, Publication, Store,
};

fn apply(mem: &mut [u8], stores: &[Store]) {
    for s in stores {
        mem[s.offset..s.offset + s.bytes.len()].copy_from_slice(&s.bytes);
    }
}

fn u32_at(mem: &[u8], at: usize) -> u32 {
    u32::from_le_bytes([mem[at], mem[at + 1], mem[at + 2], mem[at + 3]])
}

fn u64_at(mem: &[u8], at: usize) -> u64 {
    u32_at(mem, at) as u64 | (u32_at(mem, at + 4) as u64) << 32
}

fn fresh(slots: u32) -> Vec<u8> {
    let mut mem = vec![0u8; ring_section_size(slots)];
    apply(&mut mem, &ring_created(slots, 10_000_000, 77));
    mem
}

#[test]
fn new_section_is_a_valid_header_and_the_magic_comes_last() {
    let stores = ring_created(3, 10_000_000, 77);
    let mut mem = vec![0u8; ring_section_size(3)];
    for (k, s) in stores.iter().enumerate() {
        assert_eq!(u32_at(&mem, 0), 0, "no magic before store {k}");
        apply(&mut mem, std::slice::from_ref(s));
    }
    let want = RingHeader {
        magic: RING_MAGIC,
        header_version: 1,
        ring_generation: 1,
        slot_count: 3,
        state: ring_state::ACTIVE,
        reserved0: 0,
        latest_sequence: 0,
        latest_present_qpc: 0,
        frames_published: 0,
        frames_dropped: 0,
        driver_heartbeat_qpc: 77,
        qpc_frequency: 10_000_000,
    };
    assert_eq!(mem[..72], want.to_bytes()[..]);
    assert!(mem[RING_SLOTS_OFFSET..].iter().all(|&b| b == 0));
}

#[test]
fn published_frame_is_complete_before_its_state_says_so() {
    let mut mem = fresh(3);
    let p = Publication {
        index: 1,
        sequence: 9,
        present_qpc: 1234,
        frames_published: 4,
        frames_dropped: 5,
    };
    let at = slot_offset(1);
    assert_eq!(at, 128 + 80);
    mem[at + 4] = 0xFF;
    let before = mem.clone();
    let stores = slot_published(p, 99);
    assert_eq!(stores.len(), 12);
    for (k, s) in stores.iter().enumerate() {
        if k <= 6 {
            assert_eq!(u32_at(&mem, at), slot_state::FREE);
            assert_eq!(u64_at(&mem, 24), 0, "the header follows the slot");
        }
        apply(&mut mem, std::slice::from_ref(s));
    }
    assert!(stores[6].release && stores[7].release);
    assert_eq!(u32_at(&mem, at), slot_state::PUBLISHED);
    assert_eq!(u32_at(&mem, at + 4), 0, "stale flags are cleared");
    assert_eq!(u64_at(&mem, at + 8), 9);
    assert_eq!(u64_at(&mem, at + 16), 1234);
    assert_eq!(u64_at(&mem, 24), 9);
    assert_eq!(u64_at(&mem, 32), 1234);
    assert_eq!(u64_at(&mem, 40), 4);
    assert_eq!(u64_at(&mem, 48), 5);
    assert_eq!(u64_at(&mem, 56), 99);
    assert_eq!(mem[slot_offset(0)..at], before[slot_offset(0)..at]);
    assert_eq!(mem[slot_offset(2)..], before[slot_offset(2)..]);
}

#[test]
fn single_stores_change_one_field() {
    let mut mem = fresh(2);
    apply(&mut mem, &set_state(ring_state::REBUILDING));
    apply(&mut mem, &set_generation(8));
    apply(&mut mem, &heartbeat(500));
    assert_eq!(u32_at(&mem, 16), ring_state::REBUILDING);
    assert_eq!(u32_at(&mem, 8), 8);
    assert_eq!(u64_at(&mem, 56), 500);
    assert_eq!(u32_at(&mem, 0), RING_MAGIC);
    assert_eq!(u32_at(&mem, 12), 2);
    mem[slot_offset(0)] = slot_state::READING as u8;
    mem[slot_offset(1)] = slot_state::WRITING as u8;
    apply(&mut mem, &reset_slot_free(1));
    assert_eq!(u32_at(&mem, slot_offset(1)), slot_state::FREE);
    assert_eq!(u32_at(&mem, slot_offset(0)), slot_state::READING);
    apply(&mut mem, &reset_slots(2));
    assert_eq!(u32_at(&mem, slot_offset(0)), slot_state::FREE);
}

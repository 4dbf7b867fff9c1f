use luminal_vgd::adapter::{select_adapter, AdapterInfo};
use luminal_vgd::error::CoreError;

fn gpu(luid: u64, vram_gb: u64, name: &str) -> AdapterInfo {
    AdapterInfo {
        luid,
        vram_bytes: vram_gb << 30,
        name: name.into(),
        software: false,
    }
}

#[test]
fn default_picks_largest_vram() {
    let adapters = [
        gpu(0x10, 8, "iGPU"),
        gpu(0x20, 16, "RTX 5080"),
        gpu(0x30, 4, "old dGPU"),
    ];
    assert_eq!(select_adapter(&adapters, 0), Ok(0x20));
}

#[test]
fn explicit_luid_wins_even_if_smaller() {
    let adapters = [gpu(0x10, 8, "iGPU"), gpu(0x20, 16, "RTX 5080")];
    assert_eq!(select_adapter(&adapters, 0x10), Ok(0x10));
}

#[test]
fn unknown_luid_is_an_error_not_a_fallback() {
    let adapters = [gpu(0x10, 8, "iGPU")];
    assert_eq!(select_adapter(&adapters, 0x99), Err(CoreError::NoAdapter));
}

#[test]
fn software_adapters_never_selected() {
    let mut warp = gpu(0x40, 32, "WARP");
    warp.software = true;
    assert_eq!(select_adapter(&[warp.clone(), gpu(0x10, 2, "iGPU")], 0), Ok(0x10));
    assert_eq!(select_adapter(&[warp.clone()], 0x40), Err(CoreError::NoAdapter));
    assert_eq!(select_adapter(&[warp], 0), Err(CoreError::NoAdapter));
}

#[test]
fn vram_tie_breaks_deterministically() {
    let a = [gpu(0x10, 8, "A"), gpu(0x20, 8, "B")];
    let b = [gpu(0x20, 8, "B"), gpu(0x10, 8, "A")];
    assert_eq!(select_adapter(&a, 0), select_adapter(&b, 0));
}

use minivec::{make_layout, max_align, next_aligned, next_capacity, Header};

// Aligned past the header through its `u128` elements.
struct OverAligned {
    _data: [u128; 32],
}

#[test]
fn next_aligned_test() {
    assert_eq!(next_aligned(9, 4), 12);
    assert_eq!(next_aligned(13, 4), 16);
    assert_eq!(next_aligned(12, 4), 12);
    assert_eq!(next_aligned(13, 1), 13);
    assert_eq!(next_aligned(8, 8), 8);
    assert_eq!(next_aligned(16, 32), 32);
    assert_eq!(next_aligned(16, 512), 512);
}

#[test]
fn max_align_test() {
    let header_alignment = core::mem::align_of::<Header>();

    assert!(core::mem::align_of::<i32>() <= core::mem::align_of::<Header>());
    assert_eq!(max_align::<i32>(), header_alignment);

    assert!(core::mem::align_of::<u8>() <= core::mem::align_of::<Header>());
    assert_eq!(max_align::<u8>(), header_alignment);

    assert!(core::mem::align_of::<OverAligned>() > core::mem::align_of::<Header>());
    assert_eq!(
        max_align::<OverAligned>(),
        core::mem::align_of::<OverAligned>()
    );
}

#[test]
fn make_layout_test() {
    // empty
    let layout = make_layout::<i32>(0, max_align::<i32>());

    assert_eq!(layout.align(), core::mem::align_of::<Header>());
    assert_eq!(layout.size(), core::mem::size_of::<Header>());

    // non-empty, less than
    let layout = make_layout::<i32>(512, max_align::<i32>());
    assert!(core::mem::align_of::<i32>() < core::mem::align_of::<Header>());
    assert_eq!(layout.align(), core::mem::align_of::<Header>());
    assert_eq!(
        layout.size(),
        core::mem::size_of::<Header>() + 512 * core::mem::size_of::<i32>()
    );

    // non-empty, equal
    let layout = make_layout::<i64>(512, max_align::<i64>());
    assert_eq!(
        core::mem::align_of::<i64>(),
        core::mem::align_of::<Header>()
    );
    assert_eq!(layout.align(), core::mem::align_of::<Header>());
    assert_eq!(
        layout.size(),
        core::mem::size_of::<Header>() + 512 * core::mem::size_of::<i64>()
    );

    // non-empty, greater
    let layout = make_layout::<OverAligned>(512, max_align::<OverAligned>());
    assert!(core::mem::align_of::<OverAligned>() > core::mem::align_of::<Header>());
    assert_eq!(layout.align(), core::mem::align_of::<OverAligned>());
    assert_eq!(
        layout.size(),
        next_aligned(
            core::mem::size_of::<Header>(),
            core::mem::align_of::<OverAligned>()
        ) + 512 * core::mem::size_of::<OverAligned>()
    );

    // non-empty, over-aligned
    let layout = make_layout::<i32>(512, 32);
    assert_eq!(layout.align(), 32);
    assert_eq!(
        layout.size(),
        next_aligned(core::mem::size_of::<Header>(), 32)
            + next_aligned(core::mem::size_of::<i32>() * 512, 32)
    );
}

#[test]
fn next_aligned_rounds_within_one_step() {
    assert_eq!(next_aligned(0, 8), 0);
    assert_eq!(next_aligned(1, 8), 8);
    assert_eq!(next_aligned(17, 16), 32);
}

#[test]
fn growth_seed_depends_on_element_size() {
    assert_eq!(next_capacity::<u8>(0), 8);
    assert_eq!(next_capacity::<u16>(0), 4);
    assert_eq!(next_capacity::<[u8; 1024]>(0), 4);
    assert_eq!(next_capacity::<[u8; 1025]>(0), 1);
    assert_eq!(next_capacity::<()>(0), 4);
}

#[test]
fn later_growth_doubles() {
    assert_eq!(next_capacity::<u8>(8), 16);
    assert_eq!(next_capacity::<u64>(4), 8);
    assert_eq!(next_capacity::<[u8; 2048]>(1), 2);
}

#[test]
fn layout_of_empty_region_is_the_aligned_header() {
    let layout = make_layout::<u8>(0, 64);
    assert_eq!(layout.align(), 64);
    assert_eq!(layout.size(), 64);
    let layout = make_layout::<u8>(3, 8);
    assert_eq!(layout.size(), 16 + 8);
}

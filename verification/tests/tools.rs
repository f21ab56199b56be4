//! Tests of the rectangle packer, the composite image buffer, the ring
//! buffer, the panel state and the archive builder.
use horizon_horse::composite::{rect_idx, CompositeImage};
use horizon_horse::packer::{valid_ext, Image, ImageLoad, PackerKey};
use horizon_horse::panel::PanelState;
use horizon_horse::rectpack::best_bin_finder::{
    best_packing_for_ordering, BestPackingForOrderingResult,
};
use horizon_horse::rectpack::empty_spaces::EmptySpaces;
use horizon_horse::rectpack::finders_interface::{
    default_comparators, find_best_packing, DiscardStep, FinderInput, RectComparator,
};
use horizon_horse::rectpack::insert_and_split::CreatedSplits;
use horizon_horse::rectpack::rect_structs::{RectWH, RectXYWH, RectXYWHF};
use horizon_horse::utils::RingBuffer;
use horizon_horse::wad::{AssetError, Builder};

#[test]
fn rect_basics() {
    let r = RectWH::new(3, 5);
    assert_eq!(r.flip(), RectWH::new(5, 3));
    assert_eq!(r.max_size(), 5);
    assert_eq!(r.min_size(), 3);
    assert_eq!(r.area(), 15);
    assert_eq!(r.perimeter(), 16);
    assert_eq!(r.to_xywh(), RectXYWH::new(0, 0, 3, 5));
    let mut bb = RectWH::new(4, 4);
    bb.expand_with_mut(RectXYWH::new(2, 1, 5, 2));
    assert_eq!(bb, RectWH::new(7, 4));
    let p = RectXYWH::new(1, 2, 3, 4);
    assert_eq!(p.to_wh(), RectWH::new(3, 4));
    assert_eq!(RectXYWH::from_wh(RectWH::new(3, 4)), RectXYWH::new(0, 0, 3, 4));
    let mut q = p;
    q.reset_xy();
    assert_eq!(q, RectXYWH::new(0, 0, 3, 4));
    let f = RectXYWHF::new(0, 0, 3, 4, true);
    assert_eq!((f.w, f.h, f.flipped), (4, 3, true));
}

#[test]
fn created_splits_cases() {
    // does not fit
    let s = CreatedSplits::new(RectWH::new(5, 1), RectXYWH::new(0, 0, 4, 4));
    assert!(!s.valid());
    assert_eq!(s.vec(), Vec::new());
    // exact fit leaves nothing
    let s = CreatedSplits::new(RectWH::new(4, 4), RectXYWH::new(0, 0, 4, 4));
    assert_eq!(s, CreatedSplits::Zero);
    // same height leaves one strip to the right
    let s = CreatedSplits::new(RectWH::new(1, 4), RectXYWH::new(0, 0, 4, 4));
    assert_eq!(s, CreatedSplits::One(RectXYWH::new(1, 0, 3, 4)));
    // same width leaves one strip below
    let s = CreatedSplits::new(RectWH::new(4, 1), RectXYWH::new(0, 0, 4, 4));
    assert_eq!(s, CreatedSplits::One(RectXYWH::new(0, 1, 4, 3)));
    // a corner insertion leaves two, the larger first
    let s = CreatedSplits::new(RectWH::new(1, 3), RectXYWH::new(0, 0, 4, 4));
    assert_eq!(
        s,
        CreatedSplits::Two(RectXYWH::new(1, 0, 3, 4), RectXYWH::new(0, 3, 1, 1))
    );
}

#[test]
fn empty_spaces_insert() {
    let mut es = EmptySpaces::new();
    es.reset(RectWH::new(10, 10));
    let a = es.insert(RectXYWH::new(0, 0, 4, 4)).unwrap();
    assert_eq!((a.x, a.y, a.w, a.h), (0, 0, 4, 4));
    assert_eq!(es.current_aabb, RectWH::new(4, 4));
    let b = es.insert(RectXYWH::new(0, 0, 6, 6)).unwrap();
    assert_eq!((b.w, b.h), (6, 6));
    // a rectangle too big for any leftover space is refused
    assert_eq!(es.insert(RectXYWH::new(0, 0, 10, 10)), None);
}

#[test]
fn best_packing_small_case() {
    let rects = vec![
        RectXYWH::new(0, 0, 4, 4),
        RectXYWH::new(0, 0, 4, 4),
        RectXYWH::new(0, 0, 4, 4),
        RectXYWH::new(0, 0, 4, 4),
    ];
    let order = vec![0usize, 1, 2, 3];
    let mut root = EmptySpaces::new();
    let res = best_packing_for_ordering(
        &mut root,
        &rects,
        &order,
        RectWH::new(64, 64),
        DiscardStep::Tries(0),
    );
    match res {
        BestPackingForOrderingResult::Rect(bin) => {
            // four 4x4 tiles pack into at most an 8x8 area's worth of bin
            assert!(bin.w as u64 * bin.h as u64 >= 64);
            assert!(bin.w <= 64 && bin.h <= 64);
        },
        BestPackingForOrderingResult::TotalArea(_) => panic!("packing must fit"),
    }
}

#[test]
fn find_best_packing_places_everything() {
    let mut subjects = vec![
        RectXYWH::new(0, 0, 3, 2),
        RectXYWH::new(0, 0, 2, 2),
        RectXYWH::new(0, 0, 1, 4),
    ];
    let comparators = default_comparators();
    assert_eq!(comparators[0], RectComparator::Area);
    assert_eq!(comparators.len(), 5);
    let input = FinderInput {
        start_size: 32,
        discard_step: DiscardStep::Tries(2),
        allow_flipping: false,
    };
    let bin = find_best_packing(&mut subjects, input, &comparators).expect("must fit");
    assert!(bin.w <= 32 && bin.h <= 32 && bin.w > 0 && bin.h > 0);
    // sizes survive, positions are inside the reported bin
    let dims: Vec<(u32, u32)> = subjects.iter().map(|r| (r.w, r.h)).collect();
    assert_eq!(dims, vec![(3, 2), (2, 2), (1, 4)]);
    for r in &subjects {
        assert!(r.x + r.w <= bin.w && r.y + r.h <= bin.h);
    }
    // no two placements overlap
    for i in 0..subjects.len() {
        for j in 0..i {
            let a = subjects[i];
            let b = subjects[j];
            let apart = a.x + a.w <= b.x || b.x + b.w <= a.x || a.y + a.h <= b.y
                || b.y + b.h <= a.y;
            assert!(apart, "{a:?} overlaps {b:?}");
        }
    }
}

#[test]
fn composite_new_and_copy() {
    let mut dst = CompositeImage::new(RectWH::new(4, 4));
    assert_eq!(dst.data.len(), 64);
    assert_eq!(&dst.data[0..8], &[0xFF, 0, 0xFF, 0xFF, 0xFF, 0, 0xFF, 0xFF]);
    let mut src = CompositeImage::new(RectWH::new(2, 2));
    for (i, b) in src.data.iter_mut().enumerate() {
        *b = i as u8;
    }
    // copy the whole 2x2 source to position (1, 2) of the destination
    dst.copy_from(&src, RectXYWH::new(0, 0, 2, 2), RectWH::new(1, 2));
    // row 2 of the destination holds source row 0 at column 1
    assert_eq!(&dst.data[(2 * 4 + 1) * 4..(2 * 4 + 3) * 4], &src.data[0..8]);
    // row 3 holds source row 1
    assert_eq!(&dst.data[(3 * 4 + 1) * 4..(3 * 4 + 3) * 4], &src.data[8..16]);
    // a byte outside the destination rectangle is untouched
    assert_eq!(dst.data[0], 0xFF);
}

#[test]
fn rect_idx_walks_rows() {
    let cells = rect_idx(RectWH::new(3, 2));
    let got: Vec<(u32, u32)> = cells.iter().map(|c| (c.w, c.h)).collect();
    assert_eq!(got, vec![(0, 0), (1, 0), (2, 0), (0, 1), (1, 1), (2, 1)]);
}

#[test]
fn image_load_layouts() {
    let whole = ImageLoad::Whole.into_rects(RectWH::new(7, 9));
    assert_eq!(whole, vec![RectXYWH::new(0, 0, 7, 9)]);
    let atlas = vec![RectXYWH::new(5, 5, 1, 1)];
    assert_eq!(
        ImageLoad::Atlas(atlas.clone()).into_rects(RectWH::new(7, 9)),
        atlas
    );
    let tiled = ImageLoad::Tiled {
        init: RectXYWH::new(1, 1, 8, 8),
        gap: RectWH::new(2, 2),
        count: RectWH::new(2, 2),
    }
    .into_rects(RectWH::new(32, 32));
    assert_eq!(
        tiled,
        vec![
            RectXYWH::new(3, 3, 8, 8),
            RectXYWH::new(13, 3, 8, 8),
            RectXYWH::new(3, 13, 8, 8),
            RectXYWH::new(13, 13, 8, 8),
        ]
    );
    let img = Image::External("sprites/horse.png");
    assert_eq!(img.to_path(), "sprites/horse.png");
    let key = PackerKey { id: "horse", layer: Some("front") };
    assert_eq!(key, key.clone());
}

#[test]
fn ring_buffer_cycles() {
    let mut rb: RingBuffer<u32> = RingBuffer::new_fill(3, 0);
    assert_eq!(rb.len(), 3);
    rb.push(1);
    rb.push(2);
    assert_eq!(rb.iter(), vec![0, 1, 2]);
    rb.push(3);
    rb.push(4);
    // the oldest value was overwritten
    assert_eq!(rb.iter(), vec![2, 3, 4]);
}

#[test]
fn panel_state_toggles() {
    let mut p = PanelState::new(true);
    assert!(!p.is_open());
    p.toggle_open_mut();
    assert!(p.is_open());
    assert_eq!(p.arrow(), "<<");
    assert_eq!(PanelState::new(false).arrow(), ">>");
}

#[test]
fn wad_builder_appends_and_refuses() {
    let mut b = Builder::new();
    assert_eq!(b.offset, 16);
    b.bundle_append(b"name".to_vec(), vec![1, 2, 3]).unwrap();
    assert_eq!(b.entries.len(), 1);
    assert_eq!(b.entries[0].name_len, 4);
    assert_eq!(b.entries[0].data_len_low, 3);
    assert_eq!(b.entries[0].data_len_high, 0);
    assert_eq!(b.offset, 16 + 16 + 4);
    let long_name = vec![b'x'; 70000];
    assert_eq!(
        b.bundle_append(long_name, Vec::new()),
        Err(AssetError::NameTooLong(70000))
    );
    // the refused append changed nothing
    assert_eq!(b.entries.len(), 1);
    assert_eq!(b.offset, 36);
}

#[test]
fn valid_ext_checks_the_suffix() {
    assert!(valid_ext(b"sprites/horse.png"));
    assert!(valid_ext(b"a.b.png"));
    assert!(!valid_ext(b"horse.jpg"));
    assert!(!valid_ext(b"horse.png.gz"));
    assert!(!valid_ext(b"png.horse"));
    assert!(valid_ext(b"png"));
    assert!(!valid_ext(b""));
}

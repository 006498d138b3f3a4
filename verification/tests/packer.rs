use std::collections::hash_map::DefaultHasher;
use std::hash::{Hash, Hasher};
use xettacast::{PackError, TexturePacker, TexturePackerSpace};

fn space(x: u32, y: u32, width: u32, height: u32, layer: u32) -> TexturePackerSpace {
    TexturePackerSpace { x, y, width, height, layer }
}

fn texel(packer: &TexturePacker, layer: u32, x: u32, y: u32) -> [u8; 4] {
    let page = packer.layer(layer);
    let at = ((y * packer.width() + x) * 4) as usize;
    [page[at], page[at + 1], page[at + 2], page[at + 3]]
}

fn expected_color(name: &str) -> [u8; 4] {
    let mut hasher = DefaultHasher::new();
    name.hash(&mut hasher);
    let color = hasher.finish() as u32 | 0x0000_00FF;
    [(color >> 24) as u8, (color >> 16) as u8, (color >> 8) as u8, color as u8]
}

fn overlap(a: &TexturePackerSpace, b: &TexturePackerSpace) -> bool {
    a.layer == b.layer
        && a.width > 0
        && a.height > 0
        && b.width > 0
        && b.height > 0
        && a.x < b.x + b.width
        && b.x < a.x + a.width
        && a.y < b.y + b.height
        && b.y < a.y + a.height
}

#[test]
fn three_items_fill_a_corner_of_one_page() {
    let mut packer = TexturePacker::new(200, 200, 1).unwrap();
    packer.add("large", 100, 100);
    packer.add("wide", 100, 50);
    packer.add("small", 50, 50);
    assert!(packer.pack().is_ok());
    assert_eq!(packer.get("large"), Some(space(0, 0, 100, 100, 0)));
    assert_eq!(packer.get("wide"), Some(space(100, 0, 100, 50, 0)));
    assert_eq!(packer.get("small"), Some(space(100, 50, 50, 50, 0)));
    assert_eq!(packer.get("absent"), None);
    let placed = [
        packer.get("large").unwrap(),
        packer.get("wide").unwrap(),
        packer.get("small").unwrap(),
    ];
    for i in 0..3 {
        assert_eq!(placed[i].layer, 0);
        for j in 0..3 {
            if i != j {
                assert!(!overlap(&placed[i], &placed[j]));
            }
        }
    }
    assert_eq!(packer.pending(), 0);
    assert_eq!(packer.placed(), 3);
    assert_eq!(packer.coverage(0), 200 * 200);
}

#[test]
fn a_new_atlas_is_one_free_page_per_layer() {
    let packer = TexturePacker::new(16, 8, 3).unwrap();
    assert_eq!(packer.width(), 16);
    assert_eq!(packer.height(), 8);
    assert_eq!(packer.depth(), 3);
    assert_eq!(
        packer.spaces().clone(),
        vec![space(0, 0, 16, 8, 0), space(0, 0, 16, 8, 1), space(0, 0, 16, 8, 2)]
    );
    for layer in 0..3 {
        assert_eq!(packer.layer(layer).len(), 16 * 8 * 4);
        assert!(packer.layer(layer).iter().all(|byte| *byte == 0));
        assert_eq!(packer.coverage(layer), 16 * 8);
    }
}

#[test]
fn packing_nothing_changes_nothing() {
    let mut packer = TexturePacker::new(32, 32, 2).unwrap();
    let before = packer.spaces().clone();
    assert!(packer.pack().is_ok());
    assert_eq!(packer.spaces().clone(), before);
    assert_eq!(packer.placed(), 0);
    assert_eq!(packer.pending(), 0);
}

#[test]
fn nothing_is_placed_before_pack() {
    let mut packer = TexturePacker::new(32, 32, 1).unwrap();
    packer.add("a", 4, 4);
    assert_eq!(packer.pending(), 1);
    assert_eq!(packer.get("a"), None);
    assert_eq!(packer.spaces().len(), 1);
}

#[test]
fn the_newest_free_rectangle_is_tried_first() {
    let mut packer = TexturePacker::new(10, 10, 2).unwrap();
    packer.add("a", 10, 10);
    assert!(packer.pack().is_ok());
    assert_eq!(packer.get("a"), Some(space(0, 0, 10, 10, 1)));
    assert_eq!(packer.spaces().clone(), vec![space(0, 0, 10, 10, 0)]);
}

#[test]
fn an_exact_fit_leaves_nothing() {
    let mut packer = TexturePacker::new(10, 10, 1).unwrap();
    packer.add("a", 10, 10);
    assert!(packer.pack().is_ok());
    assert!(packer.spaces().is_empty());
    assert_eq!(packer.coverage(0), 100);
}

#[test]
fn a_fit_in_height_leaves_a_strip_to_the_right() {
    let mut packer = TexturePacker::new(10, 10, 1).unwrap();
    packer.add("a", 4, 10);
    assert!(packer.pack().is_ok());
    assert_eq!(packer.spaces().clone(), vec![space(4, 0, 6, 10, 0)]);
}

#[test]
fn a_fit_in_width_leaves_a_strip_below() {
    let mut packer = TexturePacker::new(10, 10, 1).unwrap();
    packer.add("a", 10, 3);
    assert!(packer.pack().is_ok());
    assert_eq!(packer.spaces().clone(), vec![space(0, 3, 10, 7, 0)]);
}

#[test]
fn the_more_even_cut_is_taken() {
    // Item 6 by 2 in 10 by 10: the short strip and the wide strip are 8 and
    // 80 texels, the tall strip and the narrow strip 40 and 48.
    let mut packer = TexturePacker::new(10, 10, 1).unwrap();
    packer.add("a", 6, 2);
    assert!(packer.pack().is_ok());
    assert_eq!(packer.get("a"), Some(space(0, 0, 6, 2, 0)));
    assert_eq!(packer.spaces().clone(), vec![space(0, 2, 6, 8, 0), space(6, 0, 4, 10, 0)]);
}

#[test]
fn the_short_strip_and_the_wide_strip_win_when_they_are_more_even() {
    // Item 2 by 6 in 10 by 10: the short strip and the wide strip are 48 and
    // 40 texels, the tall strip and the narrow strip 80 and 8.
    let mut packer = TexturePacker::new(10, 10, 1).unwrap();
    packer.add("a", 2, 6);
    assert!(packer.pack().is_ok());
    assert_eq!(packer.spaces().clone(), vec![space(2, 0, 8, 6, 0), space(0, 6, 10, 4, 0)]);
}

#[test]
fn equal_cuts_take_the_short_and_the_wide_strip() {
    // Item 5 by 5 in 10 by 10: both cuts differ by 25 texels.
    let mut packer = TexturePacker::new(10, 10, 1).unwrap();
    packer.add("a", 5, 5);
    assert!(packer.pack().is_ok());
    assert_eq!(packer.spaces().clone(), vec![space(0, 5, 10, 5, 0), space(5, 0, 5, 5, 0)]);
}

#[test]
fn larger_requests_are_placed_first() {
    let mut packer = TexturePacker::new(10, 10, 1).unwrap();
    packer.add("small", 2, 2);
    packer.add("large", 10, 8);
    assert!(packer.pack().is_ok());
    assert_eq!(packer.get("large"), Some(space(0, 0, 10, 8, 0)));
    assert_eq!(packer.get("small"), Some(space(0, 8, 2, 2, 0)));
}

#[test]
fn requests_of_one_size_keep_their_order() {
    let mut packer = TexturePacker::new(8, 2, 1).unwrap();
    packer.add("first", 2, 2);
    packer.add("second", 1, 4);
    packer.add("third", 4, 1);
    packer.add("fourth", 2, 2);
    let error = packer.pack().unwrap_err();
    // "second" is 4 high and finds no room on a page 2 high.
    assert_eq!(error.unplaced, vec!["second".to_string()]);
    assert_eq!(error.attempted, 4);
    assert_eq!(packer.get("first"), Some(space(0, 0, 2, 2, 0)));
    assert_eq!(packer.get("third"), Some(space(2, 0, 4, 1, 0)));
    assert_eq!(packer.get("fourth").map(|s| (s.width, s.height)), Some((2, 2)));
    assert_eq!(packer.pending(), 1);
}

#[test]
fn what_finds_no_room_stays_queued_and_is_tried_again() {
    let mut packer = TexturePacker::new(10, 10, 1).unwrap();
    packer.add("big", 8, 8);
    packer.add("bigger", 9, 9);
    let first: PackError = packer.pack().unwrap_err();
    assert_eq!(first.unplaced, vec!["big".to_string()]);
    assert_eq!(first.attempted, 2);
    assert_eq!(packer.get("bigger"), Some(space(0, 0, 9, 9, 0)));
    assert_eq!(packer.pending(), 1);
    let free = packer.spaces().clone();
    let second = packer.pack().unwrap_err();
    assert_eq!(second.unplaced, vec!["big".to_string()]);
    assert_eq!(second.attempted, 1);
    assert_eq!(packer.spaces().clone(), free);
    assert_eq!(packer.get("bigger"), Some(space(0, 0, 9, 9, 0)));
    assert_eq!(packer.coverage(0), 100);
    packer.reset();
    assert_eq!(packer.pending(), 1);
    assert_eq!(packer.get("bigger"), None);
    assert!(packer.pack().is_ok());
    assert_eq!(packer.get("big"), Some(space(0, 0, 8, 8, 0)));
    assert_eq!(packer.pending(), 0);
    assert_eq!(packer.coverage(0), 100);
}

#[test]
fn two_items_that_fill_half_a_page_each_need_not_fit() {
    let mut packer = TexturePacker::new(10, 10, 1).unwrap();
    packer.add("a", 6, 6);
    packer.add("b", 6, 6);
    let error = packer.pack().unwrap_err();
    assert_eq!(error.unplaced, vec!["b".to_string()]);
    assert_eq!(packer.get("a"), Some(space(0, 0, 6, 6, 0)));
    assert_eq!(packer.get("b"), None);
}

#[test]
fn a_name_that_is_placed_again_is_looked_up_at_its_newest_rectangle() {
    let mut packer = TexturePacker::new(10, 10, 1).unwrap();
    packer.add("a", 10, 5);
    assert!(packer.pack().is_ok());
    assert_eq!(packer.get("a"), Some(space(0, 0, 10, 5, 0)));
    packer.add("a", 4, 5);
    assert!(packer.pack().is_ok());
    assert_eq!(packer.get("a"), Some(space(0, 5, 4, 5, 0)));
    assert_eq!(packer.spaces().clone(), vec![space(4, 5, 6, 5, 0)]);
    assert_eq!(packer.placed(), 2);
    assert_eq!(packer.pending(), 0);
    assert_eq!(packer.coverage(0), 100);
    packer.reset();
    assert_eq!(packer.get("a"), None);
    assert_eq!(packer.coverage(0), 100);
}

#[test]
fn pack_item_fails_only_without_room() {
    let mut packer = TexturePacker::new(10, 10, 1).unwrap();
    assert_eq!(packer.pack_item("a", 2, 2), Ok((0, 0)));
    assert_eq!(packer.get("a"), Some(space(0, 0, 2, 2, 0)));
    assert_eq!(packer.spaces().clone(), vec![space(0, 2, 10, 8, 0), space(2, 0, 8, 2, 0)]);
    // The same name again: there is room, so it is placed again.
    assert_eq!(packer.pack_item("a", 2, 2), Ok((2, 0)));
    assert_eq!(packer.get("a"), Some(space(2, 0, 2, 2, 0)));
    assert_eq!(packer.spaces().clone(), vec![space(0, 2, 10, 8, 0), space(4, 0, 6, 2, 0)]);
    assert_eq!(packer.coverage(0), 100);
    let free = packer.spaces().clone();
    assert!(packer.pack_item("b", 11, 1).is_err());
    assert!(packer.pack_item("b", 1, 11).is_err());
    assert_eq!(packer.spaces().clone(), free);
    assert_eq!(packer.get("b"), None);
    assert_eq!(packer.pending(), 0);
}

#[test]
fn pack_item_takes_an_exact_fit() {
    let mut packer = TexturePacker::new(3, 2, 2).unwrap();
    assert_eq!(packer.pack_item("a", 3, 2), Ok((0, 0)));
    assert_eq!(packer.get("a"), Some(space(0, 0, 3, 2, 1)));
    assert_eq!(packer.pack_item("b", 3, 2), Ok((0, 0)));
    assert_eq!(packer.get("b"), Some(space(0, 0, 3, 2, 0)));
    assert!(packer.spaces().is_empty());
    assert!(packer.pack_item("c", 1, 1).is_err());
    assert!(packer.pack_item("d", 0, 0).is_err());
}

#[test]
fn reset_frees_every_page_and_keeps_the_queue() {
    let mut packer = TexturePacker::new(10, 10, 2).unwrap();
    packer.add("a", 3, 3);
    packer.add("b", 20, 20);
    assert!(packer.pack().is_err());
    assert_eq!(packer.pending(), 1);
    packer.add("c", 1, 1);
    packer.reset();
    assert_eq!(packer.spaces().clone(), vec![space(0, 0, 10, 10, 0), space(0, 0, 10, 10, 1)]);
    assert_eq!(packer.get("a"), None);
    assert_eq!(packer.pending(), 2);
    assert_eq!(packer.placed(), 0);
    let error = packer.pack().unwrap_err();
    assert_eq!(error.unplaced, vec!["b".to_string()]);
    assert_eq!(error.attempted, 2);
    assert_eq!(packer.get("c"), Some(space(0, 0, 1, 1, 1)));
}

#[test]
fn a_request_without_room_is_placed_after_a_reset() {
    let mut packer = TexturePacker::new(10, 10, 1).unwrap();
    packer.add("a", 10, 10);
    packer.add("b", 10, 10);
    let error = packer.pack().unwrap_err();
    assert_eq!(error.unplaced, vec!["b".to_string()]);
    assert_eq!(packer.get("a"), Some(space(0, 0, 10, 10, 0)));
    packer.reset();
    assert_eq!(packer.pending(), 1);
    assert!(packer.pack().is_ok());
    assert_eq!(packer.get("a"), None);
    assert_eq!(packer.get("b"), Some(space(0, 0, 10, 10, 0)));
    assert_eq!(packer.pending(), 0);
}

#[test]
fn many_items_tile_the_pages() {
    let mut packer = TexturePacker::new(64, 64, 2).unwrap();
    let mut names = Vec::new();
    for i in 0..60u32 {
        let name = format!("glyph{}", i);
        packer.add(&name, 3 + (i * 7) % 11, 2 + (i * 5) % 13);
        names.push(name);
    }
    let unplaced = match packer.pack() {
        Ok(()) => Vec::new(),
        Err(error) => error.unplaced,
    };
    assert_eq!(packer.pending(), unplaced.len());
    assert_eq!(packer.placed(), names.len() - unplaced.len());
    let mut all: Vec<TexturePackerSpace> = packer.spaces().clone();
    for (i, name) in names.iter().enumerate() {
        let i = i as u32;
        match packer.get(name) {
            Some(found) => {
                assert!(!unplaced.contains(name));
                assert_eq!((found.width, found.height), (3 + (i * 7) % 11, 2 + (i * 5) % 13));
                all.push(found);
            }
            None => assert!(unplaced.contains(name)),
        }
    }
    for a in 0..all.len() {
        assert!(all[a].x + all[a].width <= 64 && all[a].y + all[a].height <= 64);
        for b in 0..a {
            assert!(!overlap(&all[a], &all[b]));
        }
    }
    for layer in 0..2u32 {
        let area: u64 = all.iter().filter(|s| s.layer == layer).map(|s| s.area()).sum();
        assert_eq!(area, 64 * 64);
        assert_eq!(packer.coverage(layer), 64 * 64);
    }
}

#[test]
fn update_copies_a_bitmap_of_the_same_size() {
    let mut packer = TexturePacker::new(4, 4, 1).unwrap();
    packer.add("a", 2, 2);
    assert!(packer.pack().is_ok());
    assert_eq!(packer.get("a"), Some(space(0, 0, 2, 2, 0)));
    let data: Vec<u8> = (1..=16).collect();
    packer.update("a", &data, 2, 2);
    assert_eq!(texel(&packer, 0, 0, 0), [1, 2, 3, 4]);
    assert_eq!(texel(&packer, 0, 1, 0), [5, 6, 7, 8]);
    assert_eq!(texel(&packer, 0, 0, 1), [9, 10, 11, 12]);
    assert_eq!(texel(&packer, 0, 1, 1), [13, 14, 15, 16]);
    assert_eq!(texel(&packer, 0, 2, 0), [0, 0, 0, 0]);
    assert_eq!(texel(&packer, 0, 0, 2), [0, 0, 0, 0]);
}

#[test]
fn update_fits_a_bitmap_of_another_size() {
    let mut packer = TexturePacker::new(4, 4, 1).unwrap();
    packer.add("a", 4, 2);
    assert!(packer.pack().is_ok());
    assert_eq!(packer.get("a"), Some(space(0, 0, 4, 2, 0)));
    // A bitmap of 2 by 2 texels, each texel with its own value.
    let data: Vec<u8> = vec![10, 10, 10, 10, 20, 20, 20, 20, 30, 30, 30, 30, 40, 40, 40, 40];
    packer.update("a", &data, 2, 2);
    // Column x samples column x * 1 / 4 = 0, row y samples row y * 1 / 2 = 0.
    for y in 0..2 {
        for x in 0..4 {
            assert_eq!(texel(&packer, 0, x, y), [10, 10, 10, 10]);
        }
    }
    assert_eq!(texel(&packer, 0, 0, 2), [0, 0, 0, 0]);
}

#[test]
fn update_samples_the_nearest_texel_at_or_before() {
    let mut packer = TexturePacker::new(4, 1, 1).unwrap();
    packer.add("a", 4, 1);
    assert!(packer.pack().is_ok());
    // A bitmap of 9 by 1 texels whose texel i holds the value i.
    let mut data = Vec::new();
    for i in 0..9u8 {
        data.extend_from_slice(&[i, i, i, i]);
    }
    packer.update("a", &data, 9, 1);
    // Column x samples column x * 8 / 4.
    assert_eq!(texel(&packer, 0, 0, 0), [0, 0, 0, 0]);
    assert_eq!(texel(&packer, 0, 1, 0), [2, 2, 2, 2]);
    assert_eq!(texel(&packer, 0, 2, 0), [4, 4, 4, 4]);
    assert_eq!(texel(&packer, 0, 3, 0), [6, 6, 6, 6]);
}

#[test]
fn update_of_an_unknown_name_does_nothing() {
    let mut packer = TexturePacker::new(4, 4, 1).unwrap();
    packer.update("nobody", &[1, 2, 3, 4], 1, 1);
    assert!(packer.layer(0).iter().all(|byte| *byte == 0));
}

#[test]
fn fill_color_marks_each_item_by_its_name() {
    let mut packer = TexturePacker::new(8, 8, 2).unwrap();
    packer.add("a", 8, 8);
    packer.add("b", 3, 2);
    assert!(packer.pack().is_ok());
    let data = vec![9u8; 8 * 8 * 4];
    packer.update("a", &data, 8, 8);
    let free = packer.spaces().clone();
    assert!(packer.fill_color().is_ok());
    assert_eq!(packer.spaces().clone(), free);
    let a = packer.get("a").unwrap();
    let b = packer.get("b").unwrap();
    assert_ne!(a.layer, b.layer);
    assert_eq!(texel(&packer, a.layer, 0, 0), expected_color("a"));
    assert_eq!(texel(&packer, a.layer, 7, 7), expected_color("a"));
    assert_eq!(texel(&packer, b.layer, b.x, b.y), expected_color("b"));
    assert_eq!(texel(&packer, b.layer, b.x + 2, b.y + 1), expected_color("b"));
    assert_eq!(texel(&packer, b.layer, b.x + 3, b.y), [0, 0, 0, 0]);
    assert_eq!(texel(&packer, b.layer, 7, 7), [0, 0, 0, 0]);
    assert_eq!(expected_color("a")[3], 255);
    assert_ne!(expected_color("a"), expected_color("b"));
}

#[test]
fn fill_color_clears_what_was_drawn_outside_the_items() {
    let mut packer = TexturePacker::new(4, 4, 1).unwrap();
    packer.add("a", 4, 4);
    assert!(packer.pack().is_ok());
    packer.update("a", &vec![7u8; 64], 4, 4);
    packer.reset();
    assert!(packer.layer(0).iter().all(|byte| *byte == 7));
    assert!(packer.fill_color().is_ok());
    assert!(packer.layer(0).iter().all(|byte| *byte == 0));
}

#[test]
fn fill_color_with_paints_the_free_rectangles() {
    let mut packer = TexturePacker::new(10, 10, 1).unwrap();
    packer.add("a", 6, 2);
    assert!(packer.pack().is_ok());
    assert_eq!(packer.spaces().clone(), vec![space(0, 2, 6, 8, 0), space(6, 0, 4, 10, 0)]);
    packer.fill_color_with(&vec![0x11223344, 0xAABBCCDD]);
    assert_eq!(texel(&packer, 0, 0, 0), [0, 0, 0, 0]);
    assert_eq!(texel(&packer, 0, 5, 1), [0, 0, 0, 0]);
    assert_eq!(texel(&packer, 0, 0, 2), [0x11, 0x22, 0x33, 0x44]);
    assert_eq!(texel(&packer, 0, 5, 9), [0x11, 0x22, 0x33, 0x44]);
    assert_eq!(texel(&packer, 0, 6, 0), [0xAA, 0xBB, 0xCC, 0xDD]);
    assert_eq!(texel(&packer, 0, 9, 9), [0xAA, 0xBB, 0xCC, 0xDD]);
}

#[test]
fn fill_color_empty_paints_the_free_rectangles_opaque() {
    let mut packer = TexturePacker::new(10, 10, 1).unwrap();
    packer.add("a", 6, 2);
    assert!(packer.pack().is_ok());
    let free = packer.spaces().clone();
    assert!(packer.fill_color_empty().is_ok());
    assert_eq!(packer.spaces().clone(), free);
    assert_eq!(packer.get("a"), Some(space(0, 0, 6, 2, 0)));
    assert_eq!(texel(&packer, 0, 0, 0), [0, 0, 0, 0]);
    assert_eq!(texel(&packer, 0, 5, 1), [0, 0, 0, 0]);
    let below = texel(&packer, 0, 0, 2);
    let beside = texel(&packer, 0, 6, 0);
    assert_eq!(below[3], 255);
    assert_eq!(beside[3], 255);
    assert_eq!(texel(&packer, 0, 5, 9), below);
    assert_eq!(texel(&packer, 0, 9, 9), beside);
}

#[test]
fn spaces_compare_by_their_size() {
    let small = space(0, 0, 2, 3, 0);
    let large = space(5, 5, 4, 4, 1);
    assert_eq!(small.area(), 6);
    assert_eq!(large.area(), 16);
    assert_eq!(space(0, 0, 65536, 65536, 0).area(), 1u64 << 32);
    assert!(large.fits(4, 4));
    assert!(!large.fits(5, 1));
    assert!(!large.fits(1, 5));
    assert!(small.fits_in(&large));
    assert!(!large.fits_in(&small));
    assert_eq!(small.compare(&large), std::cmp::Ordering::Less);
    assert_eq!(large.compare(&small), std::cmp::Ordering::Greater);
    assert_eq!(small.compare(&space(9, 9, 3, 2, 4)), std::cmp::Ordering::Equal);
}

#[test]
fn empty_requests_are_placed_and_take_no_room() {
    let mut packer = TexturePacker::new(10, 10, 1).unwrap();
    packer.add("nothing", 0, 0);
    assert!(packer.pack().is_ok());
    assert_eq!(packer.get("nothing"), Some(space(0, 0, 0, 0, 0)));
    assert_eq!(packer.coverage(0), 100);
    packer.update("nothing", &[], 0, 0);
}

#[test]
fn requests_under_one_name_are_each_placed_where_there_is_room() {
    let mut packer = TexturePacker::new(10, 10, 1).unwrap();
    packer.add("a", 100, 100);
    packer.add("a", 2, 2);
    packer.add("a", 1, 1);
    let error = packer.pack().unwrap_err();
    assert_eq!(error.unplaced, vec!["a".to_string()]);
    assert_eq!(error.attempted, 3);
    assert_eq!(packer.get("a").map(|s| (s.width, s.height)), Some((1, 1)));
    assert_eq!(packer.pending(), 1);
    assert_eq!(packer.placed(), 2);
    assert_eq!(packer.coverage(0), 100);
}

use rray::image::ImageBuff;
use rray::merge::write_tile;
use rray::scheduler::{Action, Scheduler};
use rray::tile::{partition_tiles, Tile};

fn owners_scan(tiles: &[Tile], w: usize, h: usize) -> Vec<usize> {
    let mut count = vec![0usize; w * h];
    for t in tiles {
        for y in t.y..t.y + t.h {
            for x in t.x..t.x + t.w {
                assert!(x < w && y < h);
                count[y * w + x] += 1;
            }
        }
    }
    count
}

fn cut(p: &[u32], w: usize, t: &Tile) -> Vec<u32> {
    let mut v = Vec::new();
    for y in t.y..t.y + t.h {
        for x in t.x..t.x + t.w {
            v.push(p[y * w + x]);
        }
    }
    v
}

#[test]
fn tile_new_keeps_fields() {
    let t = Tile::new(1, 2, 3, 4);
    assert_eq!((t.x, t.y, t.w, t.h), (1, 2, 3, 4));
}

#[test]
fn partition_clips_last_row_and_column() {
    let tiles = partition_tiles(5, 3, 2, 2);
    assert_eq!(
        tiles,
        vec![
            Tile::new(0, 0, 2, 2),
            Tile::new(2, 0, 2, 2),
            Tile::new(4, 0, 1, 2),
            Tile::new(0, 2, 2, 1),
            Tile::new(2, 2, 2, 1),
            Tile::new(4, 2, 1, 1),
        ]
    );
}

#[test]
fn partition_covers_each_pixel_once() {
    for &(w, h, tw, th) in &[(5, 3, 2, 2), (7, 7, 3, 1), (4, 4, 4, 4), (1, 9, 5, 2), (16, 9, 4, 3)] {
        let tiles = partition_tiles(w, h, tw, th);
        let area: usize = tiles.iter().map(|t| t.w * t.h).sum();
        assert_eq!(area, w * h);
        assert!(owners_scan(&tiles, w, h).iter().all(|&c| c == 1));
    }
}

#[test]
fn partition_tile_larger_than_canvas() {
    assert_eq!(partition_tiles(3, 2, 10, 10), vec![Tile::new(0, 0, 3, 2)]);
}

#[test]
fn partition_of_empty_canvas_is_empty() {
    assert!(partition_tiles(0, 4, 2, 2).is_empty());
    assert!(partition_tiles(4, 0, 2, 2).is_empty());
}

#[test]
fn write_tile_places_pixels_and_keeps_the_rest() {
    let mut b = ImageBuff::create_with_a_color(4, 3, 9);
    write_tile(Tile::new(1, 1, 2, 2), &vec![1, 2, 3, 4], &mut b);
    assert_eq!(b.data, vec![9, 9, 9, 9, 9, 1, 2, 9, 9, 3, 4, 9]);
}

#[test]
fn tiled_merge_equals_whole_image() {
    let (w, h) = (7usize, 5usize);
    let p: Vec<u32> = (0..(w * h) as u32).map(|i| i * 31 + 7).collect();
    let tiles = partition_tiles(w, h, 3, 2);
    let mut forward = ImageBuff::create(w, h);
    for t in &tiles {
        write_tile(*t, &cut(&p, w, t), &mut forward);
    }
    assert_eq!(forward.data, p);
    let mut backward = ImageBuff::create_with_a_color(w, h, 5);
    for t in tiles.iter().rev() {
        write_tile(*t, &cut(&p, w, t), &mut backward);
    }
    assert_eq!(backward.data, p);
}

#[test]
fn scheduler_bounds_workers_and_merges_in_dispatch_order() {
    let tiles = vec![Tile::new(0, 0, 1, 1), Tile::new(1, 0, 1, 1), Tile::new(2, 0, 1, 1)];
    let mut s = Scheduler::new(tiles.clone(), 2);
    assert_eq!(s.step(), Action::Dispatch(tiles[0]));
    assert_eq!(s.step(), Action::Dispatch(tiles[1]));
    assert_eq!(s.step(), Action::Merge(tiles[0]));
    assert_eq!(s.step(), Action::Dispatch(tiles[2]));
    assert_eq!(s.step(), Action::Merge(tiles[1]));
    assert!(!s.finished());
    assert_eq!(s.step(), Action::Merge(tiles[2]));
    assert!(s.finished());
    assert_eq!(s.step(), Action::Done);
    assert_eq!(s.step(), Action::Done);
}

#[test]
fn scheduler_with_one_worker_alternates() {
    let tiles = partition_tiles(4, 1, 2, 1);
    let mut s = Scheduler::new(tiles.clone(), 1);
    assert_eq!(s.step(), Action::Dispatch(tiles[0]));
    assert_eq!(s.step(), Action::Merge(tiles[0]));
    assert_eq!(s.step(), Action::Dispatch(tiles[1]));
    assert_eq!(s.step(), Action::Merge(tiles[1]));
    assert_eq!(s.step(), Action::Done);
}

#[test]
fn scheduler_with_no_tiles_is_done() {
    let mut s = Scheduler::new(Vec::new(), 3);
    assert!(s.finished());
    assert_eq!(s.step(), Action::Done);
}

#[test]
fn scheduled_render_matches_single_pass() {
    let (w, h) = (6usize, 4usize);
    let p: Vec<u32> = (0..(w * h) as u32).map(|i| i ^ 0x5a5a).collect();
    let mut s = Scheduler::new(partition_tiles(w, h, 4, 3), 3);
    let mut image = ImageBuff::create(w, h);
    let mut running = std::collections::VecDeque::new();
    loop {
        match s.step() {
            Action::Dispatch(t) => running.push_back((t, cut(&p, w, &t))),
            Action::Merge(t) => {
                let (done, px) = running.pop_front().unwrap();
                assert_eq!(done, t);
                write_tile(done, &px, &mut image);
            }
            Action::Done => break,
        }
        assert!(running.len() <= 3);
    }
    assert_eq!(image.data, p);
}

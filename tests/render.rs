use rray::image::ImageBuff;
use rray::merge::write_tile;
use rray::render::{render, render_tile};
use rray::scheduler::{Action, Scheduler};
use rray::tile::{partition_tiles, Tile};

fn shade(x: usize, y: usize) -> u32 {
    (x as u32) * 100 + (y as u32)
}

#[test]
fn render_asks_every_pixel_and_places_it() {
    let img = render(3, 2, &shade);
    assert_eq!((img.width, img.height), (3, 2));
    assert_eq!(img.data, vec![0, 100, 200, 1, 101, 201]);
}

#[test]
fn render_visits_columns_first() {
    let order = std::cell::RefCell::new(Vec::new());
    let img = render(2, 2, &|x: usize, y: usize| {
        order.borrow_mut().push((x, y));
        0u32
    });
    assert_eq!(img.data.len(), 4);
    assert_eq!(order.into_inner(), vec![(0, 0), (0, 1), (1, 0), (1, 1)]);
}

#[test]
fn render_tile_is_row_major_at_tile_offset() {
    assert_eq!(render_tile(Tile::new(2, 1, 2, 2), &shade), vec![201, 301, 202, 302]);
    assert!(render_tile(Tile::new(0, 0, 0, 3), &shade).is_empty());
}

#[test]
fn tiled_render_is_pixel_identical_to_single_pass() {
    let (w, h) = (9usize, 7usize);
    let single = render(w, h, &shade);
    for &(tw, th, workers) in &[(2usize, 3usize, 1usize), (4, 4, 3), (16, 1, 2), (1, 1, 8)] {
        let mut s = Scheduler::new(partition_tiles(w, h, tw, th), workers);
        let mut image = ImageBuff::create(w, h);
        let mut running = std::collections::VecDeque::new();
        loop {
            match s.step() {
                Action::Dispatch(t) => running.push_back((t, render_tile(t, &shade))),
                Action::Merge(_) => {
                    let (t, px) = running.pop_front().unwrap();
                    write_tile(t, &px, &mut image);
                }
                Action::Done => break,
            }
        }
        assert_eq!(image.data, single.data);
    }
}

#[test]
fn tiny_canvas_every_pixel_written() {
    let img = render(2, 2, &|_x: usize, _y: usize| 0xff10_2030u32);
    assert!(img.data.iter().all(|&p| p == 0xff10_2030));
}

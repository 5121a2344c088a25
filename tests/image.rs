use rray::image::{pack_rgb, ImageBuff, ImageFile};

#[test]
fn pack_rgb_puts_red_lowest_and_alpha_opaque() {
    assert_eq!(pack_rgb(1, 2, 3), 0xff030201);
    assert_eq!(pack_rgb(0, 0, 0), 0xff000000);
    assert_eq!(pack_rgb(255, 255, 255), 0xffffffff);
}

#[test]
fn create_is_all_zero() {
    let b = ImageBuff::create(3, 2);
    assert_eq!(b.width, 3);
    assert_eq!(b.height, 2);
    assert_eq!(b.data, vec![0u32; 6]);
}

#[test]
fn create_empty_canvas() {
    let b = ImageBuff::create(0, 5);
    assert!(b.data.is_empty());
}

#[test]
fn create_with_a_color_fills() {
    let b = ImageBuff::create_with_a_color(2, 2, 0xdeadbeef);
    assert_eq!(b.data, vec![0xdeadbeefu32; 4]);
}

#[test]
fn new_copies_data() {
    let d = [1u32, 2, 3, 4];
    let b = ImageBuff::new(2, 2, &d);
    assert_eq!(b.data, vec![1, 2, 3, 4]);
    assert_eq!(b.width, 2);
}

#[test]
fn to_rgb_raw_drops_alpha() {
    let b = ImageBuff::new(2, 1, &[pack_rgb(10, 20, 30), pack_rgb(40, 50, 60)]);
    let mut out = vec![7u8];
    b.to_rgb_raw(&mut out);
    assert_eq!(out, vec![7, 10, 20, 30, 40, 50, 60]);
}

#[test]
fn to_rgb_raw_reads_only_the_grid() {
    let b = ImageBuff::new(1, 1, &[pack_rgb(1, 2, 3), pack_rgb(4, 5, 6)]);
    let mut out = Vec::new();
    b.to_rgb_raw(&mut out);
    assert_eq!(out, vec![1, 2, 3]);
}

#[test]
fn image_file_holds_name_and_buffer() {
    let mut f = ImageFile::new("out.png");
    assert_eq!(f.name, "out.png");
    assert!(f.image_buff.is_none());
    f.add_image_buff(ImageBuff::create(1, 1));
    assert_eq!(f.image_buff.as_ref().map(|b| b.data.len()), Some(1));
    f.add_image_buff(ImageBuff::create(2, 1));
    assert_eq!(f.image_buff.as_ref().map(|b| b.width), Some(2));
}

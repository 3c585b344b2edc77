use shape_anneal::canvas::{pack, Canvas};
use shape_anneal::color::{Black, Color, Grey, Hsv, SCALE};
use shape_anneal::error::Error;

fn grey(value: u8) -> Grey {
    Grey { value }
}

#[test]
fn empty_canvas_is_white() {
    let canvas: Canvas<Grey> = Canvas::empty(4, 3);
    assert_eq!(canvas.width(), 4);
    assert_eq!(canvas.height(), 3);
    assert_eq!(canvas.len(), 12);
    for x in 0..3 {
        for y in 0..4 {
            assert_eq!(canvas.get(x, y), Some(Grey::white()));
        }
    }
    assert_eq!(canvas.to_u32_buffer(), vec![0xFFFFFF; 12]);
}

#[test]
fn canvas_without_pixels() {
    let canvas: Canvas<Grey> = Canvas::empty(0, 7);
    assert_eq!(canvas.len(), 0);
    assert_eq!(canvas.get(0, 0), None);
    assert_eq!(canvas.to_u32_buffer(), Vec::<u32>::new());
}

#[test]
fn plot_writes_at_x_times_width_plus_y() {
    let mut canvas: Canvas<Grey> = Canvas::empty(3, 2);
    assert_eq!(canvas.plot(1, 2, grey(7)), Ok(()));
    assert_eq!(canvas.plot(0, 1, grey(9)), Ok(()));
    let buffer = canvas.to_u32_buffer();
    assert_eq!(buffer[1 * 3 + 2], 0x070707);
    assert_eq!(buffer[0 * 3 + 1], 0x090909);
    assert_eq!(buffer.iter().filter(|&&p| p != 0xFFFFFF).count(), 2);
    assert_eq!(canvas.get(1, 2), Some(grey(7)));
    assert_eq!(canvas.get(0, 1), Some(grey(9)));
}

#[test]
fn plot_rejects_coordinates_outside() {
    let mut canvas: Canvas<Grey> = Canvas::empty(3, 2);
    // x runs over the two rows, y over the three columns
    assert_eq!(canvas.plot(2, 0, grey(1)), Err(Error::OutOfBounds));
    assert_eq!(canvas.plot(0, 3, grey(1)), Err(Error::OutOfBounds));
    assert_eq!(canvas.plot(-1, 0, grey(1)), Err(Error::OutOfBounds));
    assert_eq!(canvas.plot(0, -1, grey(1)), Err(Error::OutOfBounds));
    assert_eq!(canvas.plot(i16::MAX, i16::MAX, grey(1)), Err(Error::OutOfBounds));
    assert_eq!(canvas.plot_i32(1, 70_000, grey(1)), Err(Error::OutOfBounds));
    assert_eq!(canvas.plot_i32(i32::MIN, 0, grey(1)), Err(Error::OutOfBounds));
    assert_eq!(canvas.to_u32_buffer(), vec![0xFFFFFF; 6]);
    assert_eq!(canvas.get(2, 0), None);
    assert_eq!(canvas.get(0, 3), None);
    assert_eq!(canvas.get(-1, 0), None);
    assert_eq!(canvas.plot(1, 2, grey(1)), Ok(()));
    assert_eq!(canvas.plot_i32(1, 0, grey(2)), Ok(()));
    assert_eq!(canvas.get(1, 0), Some(grey(2)));
}

#[test]
fn clear_resets_every_pixel_to_white() {
    let mut canvas: Canvas<Grey> = Canvas::empty(5, 4);
    let mut written = 0;
    for x in 0..4 {
        for y in 0..5 {
            if (x + y) % 2 == 0 {
                assert_eq!(canvas.plot(x, y, grey((x * 5 + y) as u8)), Ok(()));
                written += 1;
            }
        }
    }
    let dark = canvas.to_u32_buffer().iter().filter(|&&p| p != 0xFFFFFF).count();
    assert_eq!(dark, written);
    canvas.clear();
    assert_eq!(canvas.width(), 5);
    assert_eq!(canvas.height(), 4);
    for x in 0..4 {
        for y in 0..5 {
            assert_eq!(canvas.get(x, y), Some(Grey::white()));
        }
    }
}

#[test]
fn clear_resets_hsv_to_white() {
    let mut canvas: Canvas<Hsv> = Canvas::empty(2, 2);
    assert_eq!(canvas.plot(1, 1, Hsv::from_rgb(10, 200, 30)), Ok(()));
    canvas.clear();
    for x in 0..2 {
        for y in 0..2 {
            assert_eq!(canvas.get(x, y), Some(Hsv::white()));
        }
    }
}

#[test]
fn pack_puts_red_on_top() {
    assert_eq!(pack(0x12, 0x34, 0x56), 0x123456);
    assert_eq!(pack(255, 0, 0), 0xFF0000);
    assert_eq!(pack(0, 255, 0), 0x00FF00);
    assert_eq!(pack(0, 0, 255), 0x0000FF);
    assert_eq!(pack(0, 0, 0), 0);
}

#[test]
fn display_buffer_decodes_each_pixel() {
    let mut canvas: Canvas<Hsv> = Canvas::empty(2, 1);
    assert_eq!(canvas.plot(0, 0, Hsv::from_rgb(255, 0, 0)), Ok(()));
    assert_eq!(canvas.plot(0, 1, Hsv::from_rgb(0, 0, 255)), Ok(()));
    assert_eq!(canvas.to_u32_buffer(), vec![0xFF0000, 0x0000FF]);
}

#[test]
fn likeliness_sums_the_similarities() {
    let mut a: Canvas<Grey> = Canvas::empty(2, 2);
    let mut b: Canvas<Grey> = Canvas::empty(2, 2);
    assert_eq!(a.likeliness(&b), Ok(4 * SCALE as i128));
    assert_eq!(a.plot(0, 0, grey(0)), Ok(()));
    assert_eq!(a.likeliness(&b), Ok(3 * SCALE as i128));
    assert_eq!(b.likeliness(&a), Ok(3 * SCALE as i128));
    assert_eq!(b.plot(1, 1, grey(245)), Ok(()));
    assert_eq!(a.likeliness(&b), Ok(2 * SCALE as i128 + 245_000));
    assert_eq!(b.likeliness(&a), Ok(2 * SCALE as i128 + 245_000));
}

#[test]
fn likeliness_can_be_negative() {
    let mut a: Canvas<Hsv> = Canvas::empty(1, 2);
    let mut b: Canvas<Hsv> = Canvas::empty(1, 2);
    for x in 0..2 {
        assert_eq!(a.plot(x, 0, Hsv { h: 0, s: 0, v: 0 }), Ok(()));
        assert_eq!(b.plot(x, 0, Hsv { h: 180_000, s: SCALE, v: SCALE }), Ok(()));
    }
    assert_eq!(a.likeliness(&b), Ok(2 * (SCALE as i128 - 441_672)));
}

#[test]
fn likeliness_rejects_another_pixel_count() {
    let a: Canvas<Grey> = Canvas::empty(2, 2);
    let b: Canvas<Grey> = Canvas::empty(2, 3);
    assert_eq!(a.likeliness(&b), Err(Error::SizeMismatch));
    assert_eq!(b.likeliness(&a), Err(Error::SizeMismatch));
    let none: Canvas<Grey> = Canvas::empty(0, 0);
    assert_eq!(none.likeliness(&none), Ok(0));
}

#[test]
fn from_bgr_reads_blue_first() {
    let bytes = [10u8, 20, 30, 0, 0, 255, 255, 255, 255, 0, 0, 0];
    let canvas: Canvas<Hsv> = Canvas::from_bgr(&bytes, 2, 2).ok().unwrap();
    assert_eq!(canvas.get(0, 0), Some(Hsv::from_rgb(30, 20, 10)));
    assert_eq!(canvas.get(0, 1), Some(Hsv::from_rgb(255, 0, 0)));
    assert_eq!(canvas.get(1, 0), Some(Hsv::white()));
    assert_eq!(canvas.get(1, 1), Some(Hsv::black()));
    assert_eq!(canvas.to_u32_buffer()[1], 0xFF0000);
}

#[test]
fn from_bgr_wants_three_bytes_per_pixel() {
    let bytes = [0u8; 12];
    assert_eq!(Canvas::<Grey>::from_bgr(&bytes, 2, 2).is_ok(), true);
    assert_eq!(Canvas::<Grey>::from_bgr(&bytes, 4, 1).is_ok(), true);
    assert_eq!(Canvas::<Grey>::from_bgr(&bytes, 2, 3).err(), Some(Error::SizeMismatch));
    assert_eq!(Canvas::<Grey>::from_bgr(&bytes[..11], 2, 2).err(), Some(Error::SizeMismatch));
    assert_eq!(Canvas::<Grey>::from_bgr(&bytes, 1, 1).err(), Some(Error::SizeMismatch));
    assert_eq!(Canvas::<Grey>::from_bgr(&bytes, usize::MAX, usize::MAX).err(), Some(Error::SizeMismatch));
    assert_eq!(Canvas::<Grey>::from_bgr(&[], 0, 5).map(|c| c.len()), Ok(0));
}

#[test]
fn from_source_keeps_an_image_of_the_same_size() {
    let bytes = [1u8, 2, 3, 40, 50, 60, 7, 8, 9, 100, 110, 120];
    let canvas: Canvas<Hsv> = Canvas::from_source(&bytes, 2, 2, 2, 2).ok().unwrap();
    let direct: Canvas<Hsv> = Canvas::from_bgr(&bytes, 2, 2).ok().unwrap();
    assert_eq!(canvas.to_u32_buffer(), direct.to_u32_buffer());
    assert_eq!(canvas.get(0, 1), Some(Hsv::from_rgb(60, 50, 40)));
}

#[test]
fn from_source_repeats_pixels_when_it_enlarges() {
    let bytes = [0u8, 0, 255];
    let canvas: Canvas<Hsv> = Canvas::from_source(&bytes, 3, 2, 1, 1).ok().unwrap();
    assert_eq!(canvas.width(), 3);
    assert_eq!(canvas.height(), 2);
    assert_eq!(canvas.to_u32_buffer(), vec![0xFF0000; 6]);

    // two pixels side by side, each doubled in both directions
    let pair = [0u8, 0, 0, 255, 255, 255];
    let canvas: Canvas<Black> = Canvas::from_source(&pair, 4, 2, 2, 1).ok().unwrap();
    assert_eq!(
        canvas.to_u32_buffer(),
        vec![0, 0, 0xFFFFFF, 0xFFFFFF, 0, 0, 0xFFFFFF, 0xFFFFFF]
    );
}

#[test]
fn from_source_drops_pixels_when_it_shrinks() {
    // four columns: black, white, black, white; every second one survives
    let row = [0u8, 0, 0, 255, 255, 255, 0, 0, 0, 255, 255, 255];
    let canvas: Canvas<Black> = Canvas::from_source(&row, 2, 1, 4, 1).ok().unwrap();
    let buffer = canvas.to_u32_buffer();
    assert_eq!(buffer.len(), 2);
    assert_eq!(buffer[0], buffer[1]);
    assert!(buffer[0] == 0 || buffer[0] == 0xFFFFFF);
}

#[test]
fn from_source_rejects_a_bad_source() {
    let bytes = [0u8; 12];
    assert_eq!(Canvas::<Grey>::from_source(&bytes, 2, 2, 0, 4).err(), Some(Error::BadSource));
    assert_eq!(Canvas::<Grey>::from_source(&bytes, 2, 2, 4, 0).err(), Some(Error::BadSource));
    assert_eq!(Canvas::<Grey>::from_source(&bytes, 2, 2, 2, 3).err(), Some(Error::BadSource));
    assert_eq!(Canvas::<Grey>::from_source(&bytes, 2, 2, 1, 3).err(), Some(Error::BadSource));
    assert_eq!(Canvas::<Grey>::from_source(&bytes[..11], 2, 2, 2, 2).err(), Some(Error::BadSource));
    assert_eq!(
        Canvas::<Grey>::from_source(&bytes, 2, 2, usize::MAX, usize::MAX).err(),
        Some(Error::BadSource)
    );
    assert_eq!(Canvas::<Grey>::from_source(&bytes, 0, 0, 0, 0).err(), Some(Error::BadSource));
}

#[test]
fn from_source_rejects_sizes_beyond_a_resize() {
    let bytes = [0u8; 12];
    let big = u32::MAX as usize + 1;
    assert_eq!(Canvas::<Grey>::from_source(&bytes, big, 1, 2, 2).err(), Some(Error::TooLarge));
    assert_eq!(Canvas::<Grey>::from_source(&bytes, 1, big, 2, 2).err(), Some(Error::TooLarge));
    let wide = u32::MAX as usize;
    assert_eq!(Canvas::<Grey>::from_source(&bytes, wide, wide, 2, 2).err(), Some(Error::TooLarge));
}

#[test]
fn from_source_to_no_pixels_is_empty() {
    let bytes = [0u8; 12];
    let canvas: Canvas<Grey> = Canvas::from_source(&bytes, 0, 5, 2, 2).ok().unwrap();
    assert_eq!(canvas.len(), 0);
    assert_eq!(canvas.width(), 0);
    assert_eq!(canvas.height(), 5);
    let canvas: Canvas<Grey> = Canvas::from_source(&bytes, 5, 0, 4, 1).ok().unwrap();
    assert_eq!(canvas.len(), 0);
}

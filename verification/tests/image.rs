use zaru::image::color::Color;
use zaru::image::raster::Image;
use zaru::image::rect::Rect;
use zaru::image::resolution::{AspectRatio, Resolution};
use zaru::image::view::{sample_at, AsImageView, AsImageViewMut};

fn numbered(width: u32, height: u32) -> Image {
    let mut image = Image::new(width, height);
    for y in 0..height {
        for x in 0..width {
            image.set(x, y, Color::from_rgba8(x as u8, y as u8, (x + 10 * y) as u8, 255));
        }
    }
    image
}

#[test]
fn named_colors() {
    assert_eq!(Color::black(), Color::from_rgb8(0, 0, 0));
    assert_eq!(Color::white(), Color::from_rgb8(255, 255, 255));
    assert_eq!(Color::red(), Color::from_rgb8(255, 0, 0));
    assert_eq!(Color::green(), Color::from_rgb8(0, 255, 0));
    assert_eq!(Color::blue(), Color::from_rgb8(0, 0, 255));
    assert_eq!(Color::yellow(), Color::from_rgb8(255, 255, 0));
    assert_eq!(Color::magenta(), Color::from_rgb8(255, 0, 255));
    assert_eq!(Color::cyan(), Color::from_rgb8(0, 255, 255));
    assert_eq!(Color::transparent(), Color::from_rgba8(0, 0, 0, 0));
}

#[test]
fn color_parts() {
    let color = Color::from_rgb8(1, 2, 3);
    assert_eq!((color.r(), color.g(), color.b(), color.a()), (1, 2, 3, 255));
    let faint = color.with_alpha(7);
    assert_eq!((faint.r(), faint.g(), faint.b(), faint.a()), (1, 2, 3, 7));
    assert_eq!(
        [faint.index(0), faint.index(1), faint.index(2), faint.index(3)],
        [1, 2, 3, 7]
    );
}

#[test]
fn new_image_is_transparent_black() {
    let image = Image::new(3, 2);
    assert_eq!(image.width(), 3);
    assert_eq!(image.height(), 2);
    assert_eq!(image.resolution(), Resolution::new(3, 2));
    assert_eq!(image.rect(), Rect::from_top_left(0, 0, 3, 2));
    assert_eq!(image.data(), &[0u8; 24]);
    assert_eq!(image.get(2, 1), Color::transparent());
    let empty = Image::new(0, 5);
    assert_eq!(empty.data().len(), 0);
}

#[test]
fn bytes_are_rgba_row_by_row() {
    let mut image = Image::new(2, 2);
    image.set(1, 0, Color::from_rgba8(1, 2, 3, 4));
    image.set(0, 1, Color::from_rgba8(5, 6, 7, 8));
    assert_eq!(
        image.data(),
        &[0, 0, 0, 0, 1, 2, 3, 4, 5, 6, 7, 8, 0, 0, 0, 0]
    );
    assert_eq!(image.get(1, 0), Color::from_rgba8(1, 2, 3, 4));
    assert_eq!(image.get(0, 0), Color::transparent());

    let raw = Image::from_raw(2, 2, image.data().to_vec()).unwrap();
    assert_eq!(raw.get(0, 1), Color::from_rgba8(5, 6, 7, 8));
    assert!(Image::from_raw(2, 2, vec![0; 15]).is_none());
    assert!(Image::from_raw(0, 0, vec![]).is_some());
}

#[test]
fn clear_sets_every_pixel() {
    let mut image = numbered(3, 3);
    image.clear(Color::red());
    for y in 0..3 {
        for x in 0..3 {
            assert_eq!(image.get(x, y), Color::red());
        }
    }
}

#[test]
fn flips() {
    let image = numbered(3, 2);
    let h = image.flip_horizontal();
    let v = image.flip_vertical();
    for y in 0..2 {
        for x in 0..3 {
            assert_eq!(h.get(x, y), image.get(2 - x, y));
            assert_eq!(v.get(x, y), image.get(x, 1 - y));
        }
    }
    let mut in_place = numbered(3, 2);
    in_place.flip_horizontal_in_place();
    assert_eq!(in_place.data(), h.data());
    in_place.flip_horizontal_in_place();
    in_place.flip_vertical_in_place();
    assert_eq!(in_place.data(), v.data());
}

#[test]
fn view_is_clipped_to_the_image() {
    let image = numbered(4, 4);

    let inside = image.view(&Rect::from_top_left(1, 2, 2, 1));
    assert_eq!((inside.width(), inside.height()), (2, 1));
    assert_eq!(inside.get(0, 0), image.get(1, 2));
    assert_eq!(inside.get(1, 0), image.get(2, 2));

    let partly = image.view(&Rect::from_top_left(-1, 3, 3, 5));
    assert_eq!((partly.width(), partly.height()), (2, 1));
    assert_eq!(partly.get(0, 0), image.get(0, 3));
    assert_eq!(partly.rect(), Rect::from_top_left(0, 0, 2, 1));
    assert_eq!(partly.resolution(), Resolution::new(2, 1));

    let outside = image.view(&Rect::from_top_left(4, 0, 2, 2));
    assert_eq!((outside.width(), outside.height()), (0, 0));
    let far = image.view(&Rect::from_top_left(-10, -10, 3, 3));
    assert_eq!((far.width(), far.height()), (0, 0));
    let none = image.view(&Rect::from_top_left(1, 1, 0, 3));
    assert_eq!((none.width(), none.height()), (0, 0));
}

#[test]
fn view_of_a_view() {
    let image = numbered(5, 5);
    let outer = image.view(&Rect::from_top_left(1, 1, 3, 3));
    let inner = outer.view(&Rect::from_top_left(1, 2, 5, 5));
    assert_eq!((inner.width(), inner.height()), (2, 1));
    assert_eq!(inner.get(0, 0), image.get(2, 3));
    assert_eq!(inner.get(1, 0), image.get(3, 3));
    let again = inner.reborrow();
    assert_eq!(again.get(1, 0), image.get(3, 3));
    let copy = inner.to_image();
    assert_eq!((copy.width(), copy.height()), (2, 1));
    assert_eq!(copy.get(1, 0), image.get(3, 3));
    let flipped = inner.flip_horizontal();
    assert_eq!(flipped.get(0, 0), image.get(3, 3));
    let upside = outer.flip_vertical();
    assert_eq!(upside.get(0, 0), image.get(1, 3));
}

#[test]
fn writing_through_a_view() {
    let mut image = numbered(4, 4);
    let before = numbered(4, 4);
    {
        let mut view = image.view_mut(&Rect::from_top_left(2, 1, 5, 2));
        assert_eq!((view.width(), view.height()), (2, 2));
        assert_eq!(view.resolution(), Resolution::new(2, 2));
        assert_eq!(view.rect(), Rect::from_top_left(0, 0, 2, 2));
        assert_eq!(view.get(1, 1), before.get(3, 2));
        view.set(1, 1, Color::blue());
        let mut inner = view.view_mut(&Rect::from_top_left(0, 1, 1, 1));
        inner.set(0, 0, Color::green());
        let mut same = view.reborrow();
        same.set(0, 0, Color::red());
        assert_eq!(view.view(&Rect::from_top_left(0, 0, 1, 1)).get(0, 0), Color::red());
        assert_eq!(view.to_image().get(1, 1), Color::blue());
    }
    for y in 0..4 {
        for x in 0..4 {
            let expected = match (x, y) {
                (3, 2) => Color::blue(),
                (2, 2) => Color::green(),
                (2, 1) => Color::red(),
                _ => before.get(x, y),
            };
            assert_eq!(image.get(x, y), expected);
        }
    }
}

#[test]
fn flipping_a_view_in_place_leaves_the_rest() {
    let mut image = numbered(4, 3);
    let before = numbered(4, 3);
    {
        let mut view = image.view_mut(&Rect::from_top_left(1, 0, 2, 3));
        let mirrored = view.flip_horizontal();
        assert_eq!(mirrored.get(0, 0), before.get(2, 0));
        let upside = view.flip_vertical();
        assert_eq!(upside.get(0, 0), before.get(1, 2));
        view.flip_horizontal_in_place();
    }
    for y in 0..3 {
        assert_eq!(image.get(0, y), before.get(0, y));
        assert_eq!(image.get(1, y), before.get(2, y));
        assert_eq!(image.get(2, y), before.get(1, y));
        assert_eq!(image.get(3, y), before.get(3, y));
    }
    {
        let mut view = image.view_mut(&Rect::from_top_left(0, 0, 4, 2));
        view.flip_vertical_in_place();
    }
    assert_eq!(image.get(0, 2), before.get(0, 2));
    assert_eq!(image.get(1, 2), before.get(2, 2));
    assert_eq!(image.get(3, 2), before.get(3, 2));
    assert_eq!(image.get(0, 0), before.get(0, 1));
    assert_eq!(image.get(0, 1), before.get(0, 0));
    assert_eq!(image.get(1, 0), before.get(2, 1));
}

#[test]
fn views_through_the_traits() {
    let mut image = numbered(3, 3);
    let pixel = image.get(2, 1);
    assert_eq!(image.as_view().get(2, 1), pixel);
    assert_eq!(image.as_view().as_view().width(), 3);
    {
        let mut whole = image.as_view_mut();
        assert_eq!(whole.as_view().get(2, 1), pixel);
        let mut again = whole.as_view_mut();
        again.set(0, 0, Color::white());
    }
    assert_eq!(image.get(0, 0), Color::white());
}

#[test]
fn resize_to_the_same_size_copies() {
    let image = numbered(4, 3);
    let same = image.aspect_aware_resize(Resolution::new(4, 3));
    assert_eq!(same.data(), image.data());
}

#[test]
fn resize_wide_image_adds_bars_above_and_below() {
    let mut image = Image::new(4, 2);
    image.clear(Color::red());
    image.set(3, 1, Color::blue());
    let out = image.aspect_aware_resize(Resolution::new(8, 8));
    assert_eq!((out.width(), out.height()), (8, 8));
    for y in 0..8 {
        for x in 0..8 {
            let expected = if !(2..6).contains(&y) {
                Color::transparent()
            } else if x >= 6 && y >= 4 {
                Color::blue()
            } else {
                Color::red()
            };
            assert_eq!(out.get(x, y), expected, "{x} {y}");
        }
    }
}

#[test]
fn resize_tall_image_adds_bars_left_and_right() {
    let image = numbered(2, 6);
    let out = image.as_view().aspect_aware_resize(Resolution::new(3, 3));
    // the content is one column wide and three rows high, in the middle
    for y in 0..3 {
        assert_eq!(out.get(0, y), Color::transparent());
        assert_eq!(out.get(2, y), Color::transparent());
        assert_eq!(out.get(1, y), image.get(1, 2 * y + 1));
    }
}

#[test]
fn resize_of_an_empty_view_is_blank() {
    let image = numbered(2, 2);
    let empty = image.view(&Rect::from_top_left(5, 5, 1, 1));
    let out = empty.aspect_aware_resize(Resolution::new(2, 1));
    assert_eq!(out.data(), &[0u8; 8]);
}

#[test]
fn samples_lie_under_the_middle_of_the_pixel() {
    assert_eq!(sample_at(0, 4, 8), 1);
    assert_eq!(sample_at(3, 4, 8), 7);
    assert_eq!(sample_at(0, 8, 4), 0);
    assert_eq!(sample_at(1, 8, 4), 0);
    assert_eq!(sample_at(7, 8, 4), 3);
    assert_eq!(sample_at(2, 3, 3), 2);
    assert_eq!(sample_at(u32::MAX - 1, u32::MAX, u32::MAX), u32::MAX - 1);
}

#[test]
fn rect_accessors_and_center() {
    let rect = Rect::from_top_left(-3, 4, 10, 20);
    assert_eq!((rect.x(), rect.y(), rect.width(), rect.height()), (-3, 4, 10, 20));
    let centered = Rect::from_center(10, 10, 4, 5);
    assert_eq!(centered, Rect::from_top_left(8, 8, 4, 5));
    assert!(centered.contains_point(8, 8));
    assert!(centered.contains_point(11, 12));
    assert!(!centered.contains_point(12, 12));
    assert!(!centered.contains_point(11, 13));
    assert_eq!(rect.move_by(3, -4), Rect::from_top_left(0, 0, 10, 20));
    assert_eq!(rect.grow(2), Rect::from_top_left(-5, 2, 14, 24));
}

#[test]
fn rect_intersection() {
    let a = Rect::from_top_left(0, 0, 10, 10);
    let b = Rect::from_top_left(5, -5, 10, 10);
    assert_eq!(a.intersection(&b), Some(Rect::from_top_left(5, 0, 5, 5)));
    assert_eq!(b.intersection(&a), a.intersection(&b));
    assert_eq!(a.intersection(&a), Some(a));
    assert_eq!(a.intersection(&Rect::from_top_left(10, 0, 5, 5)), None);
    assert_eq!(a.intersection(&Rect::from_top_left(3, 3, 0, 4)), None);
    let huge = Rect::from_top_left(i32::MIN, i32::MIN, u32::MAX, u32::MAX);
    assert_eq!(huge.intersection(&a), Some(a));
    let far = Rect::from_top_left(i32::MAX, i32::MAX, u32::MAX, u32::MAX);
    assert_eq!(far.intersection(&far), Some(far));
}

#[test]
fn rect_bounding() {
    assert_eq!(Rect::bounding(&[]), None);
    assert_eq!(Rect::bounding(&[(3, -2)]), Some(Rect::from_top_left(3, -2, 1, 1)));
    assert_eq!(
        Rect::bounding(&[(3, 4), (-1, 10), (2, 2)]),
        Some(Rect::from_top_left(-1, 2, 5, 9))
    );
    assert_eq!(Rect::bounding(&[(i32::MIN, 0), (i32::MAX, 0)]), None);
    assert_eq!(
        Rect::bounding(&[(i32::MIN, 0), (i32::MAX - 1, 0)]),
        Some(Rect::from_top_left(i32::MIN, 0, u32::MAX, 1))
    );
}

#[test]
fn resolution_and_ratio() {
    let res = Resolution::new(640, 480);
    assert_eq!((res.width(), res.height()), (640, 480));
    assert_eq!(res.num_pixels(), 307200);
    assert_eq!(res.rect(), Rect::from_top_left(0, 0, 640, 480));
    let ratio = res.aspect_ratio().unwrap();
    assert!(ratio.is_landscape());
    assert_eq!(Resolution::new(0, 5).aspect_ratio(), None);
    assert_eq!(AspectRatio::new(3, 0), None);
    assert!(!AspectRatio::new(3, 4).unwrap().is_landscape());
    assert_eq!(
        Resolution::new(u32::MAX, u32::MAX).num_pixels(),
        u32::MAX as u64 * u32::MAX as u64
    );
}

#[test]
fn fit_aspect_ratio_centers_the_content() {
    let square = Resolution::new(128, 128);
    let wide = AspectRatio::new(640, 480).unwrap();
    assert_eq!(square.fit_aspect_ratio(wide), Rect::from_top_left(0, 16, 128, 96));
    let tall = AspectRatio::new(480, 640).unwrap();
    assert_eq!(square.fit_aspect_ratio(tall), Rect::from_top_left(16, 0, 96, 128));
    let same = AspectRatio::new(1, 1).unwrap();
    assert_eq!(square.fit_aspect_ratio(same), Rect::from_top_left(0, 0, 128, 128));
    let thin = AspectRatio::new(1000, 1).unwrap();
    assert_eq!(
        Resolution::new(10, 10).fit_aspect_ratio(thin),
        Rect::from_top_left(0, 5, 10, 0)
    );
}

#[test]
fn clone_copies_the_pixels() {
    let image = numbered(3, 2);
    let mut copy = image.clone();
    assert_eq!(copy.data(), image.data());
    copy.set(0, 0, Color::white());
    assert_eq!(image.get(0, 0), Color::from_rgba8(0, 0, 0, 255));
}

fn unadjust(x: f32, y: f32, width: u32, height: u32) -> (f32, f32) {
    let ratio = width as f32 / height as f32;
    if ratio > 1.0 {
        (x, (y - 0.5) * ratio + 0.5)
    } else {
        ((x - 0.5) / ratio + 0.5, y)
    }
}

#[test]
fn unadjusting_undoes_the_fit() {
    for (width, height) in [(640u32, 480u32), (480, 640), (300, 300), (1920, 1080)] {
        let square = Resolution::new(256, 256);
        let ratio = Resolution::new(width, height).aspect_ratio().unwrap();
        let fit = square.fit_aspect_ratio(ratio);
        for (u, v) in [(0.0f32, 0.0f32), (0.25, 0.75), (0.5, 0.5), (1.0, 1.0)] {
            // where the point (u, v) of the picture lies in the square
            let x = (fit.x() as f32 + u * fit.width() as f32) / 256.0;
            let y = (fit.y() as f32 + v * fit.height() as f32) / 256.0;
            let (back_u, back_v) = unadjust(x, y, width, height);
            assert!((back_u - u).abs() < 0.01, "{width}x{height} {u} {back_u}");
            assert!((back_v - v).abs() < 0.01, "{width}x{height} {v} {back_v}");
        }
    }
}

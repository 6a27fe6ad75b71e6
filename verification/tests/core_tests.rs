use imagine::ascii_array::AsciiArray;
use imagine::basic_image::Image;
use imagine::bit_depth_changes::int_make_depth_8;
use imagine::image::{xy_width_to_index, Bitmap, BorrowedBitmap, Palmap};
use imagine::int_endian::{u16_from_be, u32_from_be, U16BE, U32BE};
use imagine::iterators::{iter_1bpp_high_to_low, iter_2bpp_high_to_low, iter_4bpp_high_to_low, BulkenIter};
use imagine::pixel_formats::{ABGR8888, ARGB8888, RGBA8888, XBGR8888, XRGB8888};

#[test]
fn big_endian_values_round_trip() {
    for u in [0u16, 1, 0x1234, 0xFFFF] {
        assert_eq!(U16BE::from_u16(u).to_u16(), u);
    }
    for u in [0u32, 1, 0x1234_5678, 0xFFFF_FFFF] {
        assert_eq!(U32BE::from_u32(u).to_u32(), u);
    }
    assert_eq!(U16BE::from_u16(0x0102), U16BE::from_u16(u16_from_be(1, 2)));
    assert_eq!(u32_from_be(0x12, 0x34, 0x56, 0x78), 0x1234_5678);
}

#[test]
fn flipping_twice_restores_the_bitmap() {
    let mut bm = Bitmap { width: 2, height: 3, pixels: vec![1, 2, 3, 4, 5, 6] };
    bm.vertical_flip();
    assert_eq!(bm.pixels, vec![5, 6, 3, 4, 1, 2]);
    bm.vertical_flip();
    assert_eq!(bm.pixels, vec![1, 2, 3, 4, 5, 6]);
    // a longer buffer: the front rows trade places with rows from its end
    let mut long = Bitmap { width: 2, height: 3, pixels: vec![1, 2, 3, 4, 5, 6, 7] };
    long.vertical_flip();
    assert_eq!(long.pixels, vec![6, 7, 3, 4, 5, 1, 2]);
    long.vertical_flip();
    assert_eq!(long.pixels, vec![1, 2, 3, 4, 5, 6, 7]);
    // a borrowed buffer with too few pixels: nothing changes
    let mut few = [1, 2, 3];
    let mut short = BorrowedBitmap { width: 2, height: 3, pixels: &mut few };
    short.vertical_flip();
    assert_eq!(few, [1, 2, 3]);
    // a borrowed buffer flips only its first width * height pixels
    let mut seven = [1, 2, 3, 4, 5, 6, 7];
    let mut bb7 = BorrowedBitmap { width: 2, height: 3, pixels: &mut seven };
    bb7.vertical_flip();
    assert_eq!(seven, [5, 6, 3, 4, 1, 2, 7]);
    let mut pm = Palmap { width: 1, height: 2, indexes: vec![0u8, 1], palette: vec![9u8, 8] };
    pm.vertical_flip();
    assert_eq!(pm.indexes, vec![1, 0]);
    let mut data = [1, 2, 3, 4];
    let mut bb = BorrowedBitmap { width: 2, height: 2, pixels: &mut data };
    bb.vertical_flip();
    assert_eq!(data, [3, 4, 1, 2]);
}

#[test]
fn pixel_access_by_position() {
    let mut bm = Bitmap { width: 2, height: 2, pixels: vec![1, 2, 3, 4] };
    *bm.get_mut(1, 1).unwrap() = 40;
    assert_eq!(bm.pixels, vec![1, 2, 3, 40]);
    assert!(bm.get_mut(2, 0).is_none());
    let mut img = Image { width: 2, height: 1, pixels: vec![5u8, 6] };
    assert_eq!(img.get(1, 0), Some(&6));
    assert_eq!(img.get(0, 1), None);
    assert_eq!(img.xy_to_index(1, 0), 1);
    *img.get_mut(0, 0).unwrap() = 50;
    assert_eq!(img.pixels, vec![50, 6]);
    assert_eq!(xy_width_to_index(3, 2, 10), 23);
    assert_eq!(xy_width_to_index(1, 0x1_0000, 0x1_0000), 1);
}

#[test]
fn depth_changes_keep_the_extremes() {
    assert_eq!(int_make_depth_8::<1>(1), 255);
    assert_eq!(int_make_depth_8::<1>(0), 0);
    assert_eq!(int_make_depth_8::<2>(0b10), 0b1010_1010);
    assert_eq!(int_make_depth_8::<3>(7), 255);
    assert_eq!(int_make_depth_8::<5>(0b10000), 0b1000_0100);
    assert_eq!(int_make_depth_8::<8>(123), 123);
    assert_eq!(int_make_depth_8::<16>(0xABCD), 0xAB);
}

#[test]
fn depth_changes_repeat_the_pattern_and_keep_order() {
    assert_eq!(int_make_depth_8::<4>(0x8), 0x88);
    assert_eq!(int_make_depth_8::<3>(0b101), 0b1011_0110);
    assert_eq!(int_make_depth_8::<31>(0x7FFF_FFFF), 255);
    assert_eq!(int_make_depth_8::<31>(0), 0);
    let mut last = 0;
    for s in 0..64u32 {
        let v = int_make_depth_8::<6>(s);
        assert!(v >= last);
        assert_eq!(u32::from(v) >> 2, s);
        last = v;
    }
}

#[test]
fn bit_groups_go_high_to_low() {
    assert_eq!(iter_1bpp_high_to_low(&[0b1000_0001]), vec![true, false, false, false, false, false, false, true]);
    assert_eq!(iter_2bpp_high_to_low(&[0b11_01_00_10]), vec![3, 1, 0, 2]);
    assert_eq!(iter_4bpp_high_to_low(&[0xAB, 0x0C]), vec![0xA, 0xB, 0x0, 0xC]);
    let mut it: BulkenIter<u8, 2> = BulkenIter::new(vec![1, 2, 3, 4, 5]);
    assert_eq!(it.next(), Some(vec![1, 2]));
    assert_eq!(it.next(), Some(vec![3, 4]));
    assert_eq!(it.next(), None);
}

#[test]
fn pixel_format_conversions_keep_channels() {
    let p = RGBA8888 { r: 1, g: 2, b: 3, a: 4 };
    assert_eq!(ARGB8888::from(p), ARGB8888 { a: 4, r: 1, g: 2, b: 3 });
    assert_eq!(ABGR8888::from(p), ABGR8888 { a: 4, b: 3, g: 2, r: 1 });
    assert_eq!(XRGB8888::from(p).r, 1);
    assert_eq!(XBGR8888::from(p).b, 3);
    assert_eq!(AsciiArray::from(*b"BM"), AsciiArray(*b"BM"));
}

#[test]
fn image_index_and_index_mut() {
    let mut img = imagine::basic_image::Image { width: 2, height: 2, pixels: vec![1u8, 2, 3, 4] };
    assert_eq!(*img.index((1, 0)), 2);
    assert_eq!(*img.index((0, 1)), 3);
    *img.index_mut((1, 1)) = 9;
    assert_eq!(img.pixels, vec![1, 2, 3, 9]);
}

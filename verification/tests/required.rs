use imagine::png::inflate::huff_symbol::HuffSymbol;
use imagine::png::inflate::tree_entry::TreeEntry;
use imagine::png::interlace::reduced_image_dimensions;
use imagine::png::png_error::PngResult;

#[test]
fn test_size_of_result_huff_symbol() {
    // `PngResult<HuffSymbol>` should be two usize so that it passes as two
    // values in registers instead of on the stack.
    assert_eq!(core::mem::size_of::<PngResult<HuffSymbol>>(), core::mem::size_of::<[usize; 2]>());
}

#[test]
fn test_fill_in_the_codes() {
    // the small example in the spec.
    let mut test_tree = [
        TreeEntry { bit_count: 2, bit_pattern: 0 },
        TreeEntry { bit_count: 1, bit_pattern: 0 },
        TreeEntry { bit_count: 3, bit_pattern: 0 },
        TreeEntry { bit_count: 3, bit_pattern: 0 },
    ];
    let _ = TreeEntry::fill_in_the_codes(&mut test_tree);
    let expected_tree = [
        TreeEntry { bit_count: 2, bit_pattern: 0b10 },
        TreeEntry { bit_count: 1, bit_pattern: 0b0 },
        TreeEntry { bit_count: 3, bit_pattern: 0b110 },
        TreeEntry { bit_count: 3, bit_pattern: 0b111 },
    ];
    assert_eq!(test_tree, expected_tree);

    // the bigger example in the spec.
    let mut test_tree = [
        TreeEntry { bit_count: 3, bit_pattern: 0 },
        TreeEntry { bit_count: 3, bit_pattern: 0 },
        TreeEntry { bit_count: 3, bit_pattern: 0 },
        TreeEntry { bit_count: 3, bit_pattern: 0 },
        TreeEntry { bit_count: 3, bit_pattern: 0 },
        TreeEntry { bit_count: 2, bit_pattern: 0 },
        TreeEntry { bit_count: 4, bit_pattern: 0 },
        TreeEntry { bit_count: 4, bit_pattern: 0 },
    ];
    let _ = TreeEntry::fill_in_the_codes(&mut test_tree);
    let expected_tree = [
        TreeEntry { bit_count: 3, bit_pattern: 0b010 },
        TreeEntry { bit_count: 3, bit_pattern: 0b011 },
        TreeEntry { bit_count: 3, bit_pattern: 0b100 },
        TreeEntry { bit_count: 3, bit_pattern: 0b101 },
        TreeEntry { bit_count: 3, bit_pattern: 0b110 },
        TreeEntry { bit_count: 2, bit_pattern: 0b00 },
        TreeEntry { bit_count: 4, bit_pattern: 0b1110 },
        TreeEntry { bit_count: 4, bit_pattern: 0b1111 },
    ];
    assert_eq!(test_tree, expected_tree);

    // the fixed Huffman code table.
    let mut v = Vec::with_capacity(288);
    for _ in 0..=143 {
        v.push(TreeEntry { bit_count: 8, bit_pattern: 0 });
    }
    for _ in 144..=255 {
        v.push(TreeEntry { bit_count: 9, bit_pattern: 0 });
    }
    for _ in 256..=279 {
        v.push(TreeEntry { bit_count: 7, bit_pattern: 0 });
    }
    for _ in 280..=287 {
        v.push(TreeEntry { bit_count: 8, bit_pattern: 0 });
    }
    let _ = TreeEntry::fill_in_the_codes(&mut v);
    assert_eq!(v[0].bit_pattern, 0b00110000);
    assert_eq!(v[143].bit_pattern, 0b10111111);
    assert_eq!(v[144].bit_pattern, 0b110010000);
    assert_eq!(v[255].bit_pattern, 0b111111111);
    assert_eq!(v[256].bit_pattern, 0b0000000);
    assert_eq!(v[279].bit_pattern, 0b0010111);
    assert_eq!(v[280].bit_pattern, 0b11000000);
    assert_eq!(v[287].bit_pattern, 0b11000111);
}

#[test]
fn test_reduced_image_dimensions() {
    assert_eq!(reduced_image_dimensions(0, 0), [(0, 0); 8]);
    // one
    for (w, ex) in (1..=8).zip([1, 1, 1, 1, 1, 1, 1, 1]) {
        assert_eq!(reduced_image_dimensions(w, 0)[1].0, ex, "failed w:{}", w);
    }
    for (h, ex) in (1..=8).zip([1, 1, 1, 1, 1, 1, 1, 1]) {
        assert_eq!(reduced_image_dimensions(0, h)[1].1, ex, "failed h:{}", h);
    }
    // two
    for (w, ex) in (1..=8).zip([0, 0, 0, 0, 1, 1, 1, 1]) {
        assert_eq!(reduced_image_dimensions(w, 0)[2].0, ex, "failed w:{}", w);
    }
    for (h, ex) in (1..=8).zip([1, 1, 1, 1, 1, 1, 1, 1]) {
        assert_eq!(reduced_image_dimensions(0, h)[2].1, ex, "failed h:{}", h);
    }
    // three
    for (w, ex) in (1..=8).zip([1, 1, 1, 1, 2, 2, 2, 2]) {
        assert_eq!(reduced_image_dimensions(w, 0)[3].0, ex, "failed w: {}", w);
    }
    for (h, ex) in (1..=8).zip([0, 0, 0, 0, 1, 1, 1, 1]) {
        assert_eq!(reduced_image_dimensions(0, h)[3].1, ex, "failed h: {}", h);
    }
    // four
    for (w, ex) in (1..=8).zip([0, 0, 1, 1, 1, 1, 2, 2]) {
        assert_eq!(reduced_image_dimensions(w, 0)[4].0, ex, "failed w: {}", w);
    }
    for (h, ex) in (1..=8).zip([1, 1, 1, 1, 2, 2, 2, 2]) {
        assert_eq!(reduced_image_dimensions(0, h)[4].1, ex, "failed h: {}", h);
    }
    // five
    for (w, ex) in (1..=8).zip([1, 1, 2, 2, 3, 3, 4, 4]) {
        assert_eq!(reduced_image_dimensions(w, 0)[5].0, ex, "failed w: {}", w);
    }
    for (h, ex) in (1..=8).zip([0, 0, 1, 1, 1, 1, 2, 2]) {
        assert_eq!(reduced_image_dimensions(0, h)[5].1, ex, "failed h: {}", h);
    }
    // six
    for (w, ex) in (1..=8).zip([0, 1, 1, 2, 2, 3, 3, 4]) {
        assert_eq!(reduced_image_dimensions(w, 0)[6].0, ex, "failed w: {}", w);
    }
    for (h, ex) in (1..=8).zip([1, 1, 2, 2, 3, 3, 4, 4]) {
        assert_eq!(reduced_image_dimensions(0, h)[6].1, ex, "failed h: {}", h);
    }
    // seven
    for (w, ex) in (1..=8).zip([1, 2, 3, 4, 5, 6, 7, 8]) {
        assert_eq!(reduced_image_dimensions(w, 0)[7].0, ex, "failed w: {}", w);
    }
    for (h, ex) in (1..=8).zip([0, 1, 1, 2, 2, 3, 3, 4]) {
        assert_eq!(reduced_image_dimensions(0, h)[7].1, ex, "failed h: {}", h);
    }
    //
    assert_eq!(
        reduced_image_dimensions(8, 8),
        [
            (8, 8), // zeroth
            (1, 1), // one
            (1, 1), // two
            (2, 1), // three
            (2, 2), // four
            (4, 2), // five
            (4, 4), // six
            (8, 4), // seven
        ]
    );
}

use raytracer::ppm::PPMFile;

#[test]
fn header_has_three_exact_lines() {
    let ppm = PPMFile::create("render.ppm", 1000, 500);
    assert_eq!(ppm.contents().as_slice(), b"P3\n1000 500\n255\n");
}

#[test]
fn header_of_an_empty_image() {
    let ppm = PPMFile::create("none.ppm", 0, 0);
    assert_eq!(ppm.contents().as_slice(), b"P3\n0 0\n255\n");
    assert!(ppm.is_complete());
    assert_eq!(ppm.next_pixel(), None);
}

#[test]
fn create_keeps_path_and_size() {
    let ppm = PPMFile::create("out/render.ppm", 4, 2);
    assert_eq!(ppm.path(), "out/render.ppm");
    assert_eq!(ppm.width(), 4);
    assert_eq!(ppm.height(), 2);
    assert_eq!(ppm.pixels_written(), 0);
    assert!(!ppm.is_complete());
}

#[test]
fn pixel_line_has_three_numbers_each_followed_by_a_space() {
    let mut ppm = PPMFile::create("a.ppm", 4, 2);
    ppm.write_next_pixel(255, 0, 7);
    assert_eq!(ppm.contents().as_slice(), b"P3\n4 2\n255\n255 0 7 \n");
    assert_eq!(ppm.pixels_written(), 1);
}

#[test]
fn pixel_lines_follow_in_the_order_written() {
    let mut ppm = PPMFile::create("a.ppm", 2, 1);
    ppm.write_next_pixel(1, 2, 3);
    ppm.write_next_pixel(100, 20, 3);
    assert_eq!(ppm.contents().as_slice(), b"P3\n2 1\n255\n1 2 3 \n100 20 3 \n");
    assert!(ppm.is_complete());
}

#[test]
fn writing_does_not_change_path_or_size() {
    let mut ppm = PPMFile::create("a.ppm", 3, 5);
    ppm.write_next_pixel(9, 9, 9);
    assert_eq!(ppm.path(), "a.ppm");
    assert_eq!(ppm.width(), 3);
    assert_eq!(ppm.height(), 5);
}

#[test]
fn scan_runs_from_top_left_row_by_row() {
    let mut ppm = PPMFile::create("a.ppm", 3, 2);
    let mut seen = Vec::new();
    while let Some(at) = ppm.next_pixel() {
        seen.push(at);
        ppm.write_next_pixel(0, 0, 0);
    }
    assert_eq!(seen, vec![(0, 1), (1, 1), (2, 1), (0, 0), (1, 0), (2, 0)]);
    assert!(ppm.is_complete());
    assert_eq!(ppm.pixels_written(), 6);
}

#[test]
fn next_pixel_of_a_fresh_sink_is_top_left() {
    let ppm = PPMFile::create("a.ppm", 1000, 500);
    assert_eq!(ppm.next_pixel(), Some((0, 499)));
}

#[test]
fn image_without_columns_has_no_next_pixel() {
    let ppm = PPMFile::create("a.ppm", 0, 7);
    assert_eq!(ppm.next_pixel(), None);
    assert!(ppm.is_complete());
}

#[test]
fn a_pixel_too_many_is_written_and_leaves_the_image_incomplete() {
    let mut ppm = PPMFile::create("a.ppm", 1, 1);
    ppm.write_next_pixel(1, 1, 1);
    assert!(ppm.is_complete());
    ppm.write_next_pixel(2, 2, 2);
    assert!(!ppm.is_complete());
    assert_eq!(ppm.next_pixel(), None);
    assert_eq!(ppm.contents().as_slice(), b"P3\n1 1\n255\n1 1 1 \n2 2 2 \n");
}

#[test]
fn same_pixels_give_the_same_text() {
    let mut a = PPMFile::create("a.ppm", 2, 2);
    let mut b = PPMFile::create("b.ppm", 2, 2);
    let pixels: [(u8, u8, u8); 4] = [(0, 1, 2), (30, 40, 50), (255, 255, 255), (7, 77, 177)];
    for (r, g, bl) in pixels {
        a.write_next_pixel(r, g, bl);
        b.write_next_pixel(r, g, bl);
    }
    assert_eq!(a.contents(), b.contents());
}

#[test]
fn text_reads_back_as_the_pixels_written() {
    let mut ppm = PPMFile::create("a.ppm", 3, 1);
    let pixels: [(u8, u8, u8); 3] = [(0, 10, 200), (255, 0, 99), (5, 50, 105)];
    for (r, g, b) in pixels {
        ppm.write_next_pixel(r, g, b);
    }
    let text = String::from_utf8(ppm.contents().clone()).unwrap();
    let mut lines = text.lines();
    assert_eq!(lines.next(), Some("P3"));
    assert_eq!(lines.next(), Some("3 1"));
    assert_eq!(lines.next(), Some("255"));
    let mut read = Vec::new();
    for line in lines {
        let numbers: Vec<u8> = line.split_whitespace().map(|n| n.parse().unwrap()).collect();
        assert_eq!(numbers.len(), 3);
        read.push((numbers[0], numbers[1], numbers[2]));
    }
    assert_eq!(read, pixels.to_vec());
}

#[test]
fn full_size_image_has_one_line_per_pixel() {
    let mut ppm = PPMFile::create("render.ppm", 1000, 500);
    let mut rows_from_bottom = Vec::new();
    while let Some((x, y)) = ppm.next_pixel() {
        if x == 0 {
            rows_from_bottom.push(y);
        }
        ppm.write_next_pixel((x % 256) as u8, (y % 256) as u8, 128);
    }
    assert!(ppm.is_complete());
    assert_eq!(ppm.pixels_written(), 500_000);
    let expected_rows: Vec<u32> = (0..500).rev().collect();
    assert_eq!(rows_from_bottom, expected_rows);
    let text = ppm.contents();
    let lines = text.iter().filter(|&&b| b == b'\n').count();
    assert_eq!(lines, 3 + 500_000);
    assert!(text.starts_with(b"P3\n1000 500\n255\n0 243 128 \n1 243 128 \n"));
    assert!(text.ends_with(b"231 0 128 \n"));
    let body = String::from_utf8(text[16..].to_vec()).unwrap();
    let mut count: usize = 0;
    for line in body.lines() {
        let numbers: Vec<u32> = line.split_whitespace().map(|n| n.parse().unwrap()).collect();
        assert_eq!(numbers.len(), 3);
        assert!(numbers.iter().all(|&n| n <= 255));
        count += 1;
    }
    assert_eq!(count, 500_000);
}

use raytracer_core::render::{pixel_samples, Framebuffer, PixResult, Sample};

#[test]
fn pixels_land_where_they_say() {
    let results: Vec<PixResult<u32>> = vec![(1, 0, 10), (0, 1, 20), (2, 1, 30)];
    let fb = Framebuffer::assemble(3, 2, 0u32, &results);
    assert_eq!(fb.width, 3);
    assert_eq!(fb.height, 2);
    assert_eq!(fb.cells, vec![0, 10, 0, 20, 0, 30]);
}

#[test]
fn arrival_order_does_not_change_the_image() {
    let mut results: Vec<PixResult<u32>> = Vec::new();
    for y in 0..4 {
        for x in 0..5 {
            results.push((x, y, (y * 5 + x) as u32 * 7));
        }
    }
    let forward = Framebuffer::assemble(5, 4, 99u32, &results);
    let mut shuffled = results.clone();
    shuffled.reverse();
    shuffled.swap(3, 11);
    shuffled.swap(0, 19);
    let backward = Framebuffer::assemble(5, 4, 99u32, &shuffled);
    assert_eq!(forward.cells, backward.cells);
    assert!(forward.cells.iter().all(|&c| c != 99));
}

#[test]
fn last_result_for_a_pixel_wins() {
    let results: Vec<PixResult<u32>> = vec![(0, 0, 1), (0, 0, 2)];
    let fb = Framebuffer::assemble(1, 1, 0u32, &results);
    assert_eq!(fb.cells, vec![2]);
    let empty: Vec<PixResult<u32>> = Vec::new();
    assert_eq!(Framebuffer::assemble(2, 1, 5u32, &empty).cells, vec![5, 5]);
}

#[test]
fn samples_sit_at_cell_centres() {
    let s = pixel_samples(2, 1, 3, 4);
    assert_eq!(s.len(), 9);
    // pixel (2, 1) of an image whose short side is 4 pixels: x from 2/4 to 3/4
    assert_eq!(s[0], Sample { x_num: 13, y_num: 7, den: 24 });
    assert_eq!(s[1], Sample { x_num: 13, y_num: 9, den: 24 });
    assert_eq!(s[3], Sample { x_num: 15, y_num: 7, den: 24 });
    assert_eq!(s[8], Sample { x_num: 17, y_num: 11, den: 24 });
    let one = pixel_samples(0, 0, 1, 2);
    assert_eq!(one, vec![Sample { x_num: 1, y_num: 1, den: 4 }]);
}

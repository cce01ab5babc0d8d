use softrender::buffer::{Image, Rgb};

fn white() -> Rgb {
    Rgb { r: 255, g: 255, b: 255 }
}

fn black() -> Rgb {
    Rgb { r: 0, g: 0, b: 0 }
}

fn painted(img: &Image) -> Vec<(usize, usize)> {
    let mut out: Vec<(usize, usize)> = Vec::new();
    for y in 0..img.height() {
        for x in 0..img.width() {
            if img.get_pixel(x, y) == white() {
                out.push((x, y));
            }
        }
    }
    out
}

#[test]
fn diagonal_visits_exactly_the_six_diagonal_points() {
    let mut img = Image::new(8, 8, black());
    softrender::line::line((0, 0), (5, 5), &mut img, white());
    assert_eq!(painted(&img), vec![(0, 0), (1, 1), (2, 2), (3, 3), (4, 4), (5, 5)]);
}

#[test]
fn diagonal_reversed_visits_the_identical_set() {
    let mut fwd = Image::new(8, 8, black());
    let mut rev = Image::new(8, 8, black());
    softrender::line::line((0, 0), (5, 5), &mut fwd, white());
    softrender::line::line((5, 5), (0, 0), &mut rev, white());
    assert_eq!(painted(&fwd), painted(&rev));
}

#[test]
fn steep_line_steps_the_long_axis_once_per_row() {
    let mut img = Image::new(8, 8, black());
    softrender::line::line((1, 0), (2, 5), &mut img, white());
    let mut pts = painted(&img);
    pts.sort();
    assert_eq!(pts, vec![(1, 0), (1, 1), (1, 2), (2, 3), (2, 4), (2, 5)]);
}

#[test]
fn shallow_line_and_its_reverse_agree() {
    let mut fwd = Image::new(8, 8, black());
    let mut rev = Image::new(8, 8, black());
    softrender::line::line((0, 2), (6, 4), &mut fwd, white());
    softrender::line::line((6, 4), (0, 2), &mut rev, white());
    let pts = painted(&fwd);
    assert_eq!(pts, vec![(0, 2), (1, 2), (2, 3), (3, 3), (4, 3), (5, 4), (6, 4)]);
    assert_eq!(pts, painted(&rev));
}

#[test]
fn reflecting_both_endpoints_transposes_the_pixel_set() {
    let mut fwd = Image::new(8, 8, black());
    let mut swp = Image::new(8, 8, black());
    softrender::line::line((0, 2), (6, 4), &mut fwd, white());
    softrender::line::line((2, 0), (4, 6), &mut swp, white());
    let transposed: Vec<(usize, usize)> = {
        let mut v: Vec<(usize, usize)> = painted(&fwd).iter().map(|&(x, y)| (y, x)).collect();
        v.sort();
        v
    };
    assert_eq!(transposed, painted(&swp));
}

#[test]
fn single_point_segment_paints_one_pixel() {
    let mut img = Image::new(8, 8, black());
    softrender::line::line((3, 3), (3, 3), &mut img, white());
    assert_eq!(painted(&img), vec![(3, 3)]);
}

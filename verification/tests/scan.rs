use picgen::actual_picture::{ActualPicture, Pictures};
use picgen::aptnode::{APTNode, Binary, Ternary, Unary};
use picgen::coordinatesystem::CoordinateSystem;
use picgen::generate::{
    binary_of, constant_bits, coordinate_of, generate, leaf_node, shape_of, shapes, split_three,
    split_two, ternary_of, unary_of, Shape,
};
use picgen::mono::{column_lanes, shade, write_batch, MonoData, Pic, PicError, MAX_SIDE};
use picgen::ops::Op;
use picgen::stackmachine::StackMachine;
use rand::rngs::StdRng;
use rand::SeedableRng;

fn scalar(op: Op, a: u32, b: u32, c: u32) -> u32 {
    let (x, y, z) = (f32::from_bits(a), f32::from_bits(b), f32::from_bits(c));
    match op {
        Op::FromInt => ((a as i32) as f32).to_bits(),
        Op::ToInt => (x as i32) as u32,
        Op::Sin => x.sin().to_bits(),
        Op::Cos => x.cos().to_bits(),
        Op::Sqrt => x.sqrt().to_bits(),
        Op::Abs => x.abs().to_bits(),
        Op::Floor => x.floor().to_bits(),
        Op::Add => (x + y).to_bits(),
        Op::Sub => (x - y).to_bits(),
        Op::Mul => (x * y).to_bits(),
        Op::Div => (x / y).to_bits(),
        Op::Mod => (x % y).to_bits(),
        Op::Min => x.min(y).to_bits(),
        Op::Max => x.max(y).to_bits(),
        Op::Atan2 => x.atan2(y).to_bits(),
        Op::Clamp => x.max(y).min(z).to_bits(),
        Op::Select => {
            if x >= 0.0 {
                b
            } else {
                c
            }
        }
    }
}

fn unit<const N: usize>(op: Op, a: [u32; N], b: [u32; N], c: [u32; N]) -> [u32; N] {
    let mut r = [0u32; N];
    for i in 0..N {
        r[i] = scalar(op, a[i], b[i], c[i]);
    }
    r
}

fn constant(v: f32) -> APTNode {
    APTNode::Constant(v.to_bits())
}

fn boxed(n: APTNode) -> Box<APTNode> {
    Box::new(n)
}

fn cartesian(c: APTNode) -> MonoData {
    MonoData { c, coord: CoordinateSystem::Cartesian }
}

fn polar(c: APTNode) -> MonoData {
    MonoData { c, coord: CoordinateSystem::Polar }
}

fn scan<const N: usize>(pic: &MonoData, w: usize, h: usize, t: f32) -> Vec<u8> {
    pic.get_rgba8(&Pictures::new(), w, h, t.to_bits(), &unit::<N>).unwrap()
}

fn pixels(colours: &[u8]) -> Vec<u8> {
    let mut out: Vec<u8> = Vec::new();
    for c in colours {
        out.extend_from_slice(&[*c, *c, *c, 255]);
    }
    out
}

fn busy_tree() -> APTNode {
    APTNode::Apply3(
        Ternary::Select,
        boxed(APTNode::Apply1(
            Unary::Sin,
            boxed(APTNode::Apply2(Binary::Mul, boxed(APTNode::X), boxed(constant(7.0)))),
        )),
        boxed(APTNode::Apply2(
            Binary::Sub,
            boxed(APTNode::Apply2(Binary::Mod, boxed(APTNode::Y), boxed(constant(0.3)))),
            boxed(APTNode::T),
        )),
        boxed(APTNode::Apply2(
            Binary::Atan2,
            boxed(APTNode::Y),
            boxed(APTNode::Apply1(Unary::Cos, boxed(APTNode::X))),
        )),
    )
}

fn names(list: &[&str]) -> Vec<String> {
    list.iter().map(|s| s.to_string()).collect()
}

fn count_nodes(n: &APTNode) -> usize {
    StackMachine::build(n).instructions.len()
}

fn sampled_names(n: &APTNode, out: &mut Vec<String>) {
    match n {
        APTNode::Picture(name, u, v) => {
            out.push(name.clone());
            sampled_names(u, out);
            sampled_names(v, out);
        }
        APTNode::Apply1(_, a) => sampled_names(a, out),
        APTNode::Apply2(_, a, b) => {
            sampled_names(a, out);
            sampled_names(b, out);
        }
        APTNode::Apply3(_, a, b, c) => {
            sampled_names(a, out);
            sampled_names(b, out);
            sampled_names(c, out);
        }
        _ => {}
    }
}

fn constants(n: &APTNode, out: &mut Vec<u32>) {
    match n {
        APTNode::Constant(bits) => out.push(*bits),
        APTNode::Picture(_, u, v) => {
            constants(u, out);
            constants(v, out);
        }
        APTNode::Apply1(_, a) => constants(a, out),
        APTNode::Apply2(_, a, b) => {
            constants(a, out);
            constants(b, out);
        }
        APTNode::Apply3(_, a, b, c) => {
            constants(a, out);
            constants(b, out);
            constants(c, out);
        }
        _ => {}
    }
}

fn mono(p: Pic) -> MonoData {
    match p {
        Pic::Mono(m) => m,
    }
}

#[test]
fn shade_is_white_from_zero_up() {
    assert_eq!(shade(0.5f32.to_bits()), 255);
    assert_eq!(shade((-0.5f32).to_bits()), 0);
    assert_eq!(shade(0.0f32.to_bits()), 255);
    assert_eq!(shade((-0.0f32).to_bits()), 255);
    assert_eq!(shade(f32::INFINITY.to_bits()), 255);
    assert_eq!(shade(f32::NEG_INFINITY.to_bits()), 0);
    assert_eq!(shade(f32::NAN.to_bits()), 0);
    assert_eq!(shade((-f32::NAN).to_bits()), 0);
    assert_eq!(shade(f32::MIN_POSITIVE.to_bits()), 255);
    assert_eq!(shade((-f32::MIN_POSITIVE).to_bits()), 0);
}

#[test]
fn shade_agrees_with_the_comparison_of_values() {
    let mut bits: u32 = 0;
    for _ in 0..20000 {
        let v = f32::from_bits(bits);
        let want: u8 = if v >= 0.0 { 255 } else { 0 };
        assert_eq!(shade(bits), want, "bits {:#x}", bits);
        bits = bits.wrapping_add(0x0003_4567);
    }
}

#[test]
fn constant_half_is_white_at_any_size() {
    let pic = cartesian(constant(0.5));
    for (w, h) in [(1usize, 1usize), (5, 3), (8, 8), (13, 2)] {
        let buf = scan::<4>(&pic, w, h, 0.0);
        assert_eq!(buf.len(), w * h * 4);
        assert!(buf.iter().all(|b| *b == 255));
    }
}

#[test]
fn constant_minus_half_is_black_and_opaque() {
    let pic = cartesian(constant(-0.5));
    for (w, h) in [(1usize, 1usize), (5, 3), (8, 8), (13, 2)] {
        let buf = scan::<4>(&pic, w, h, 0.0);
        assert_eq!(buf.len(), w * h * 4);
        for px in buf.chunks(4) {
            assert_eq!(px, [0, 0, 0, 255]);
        }
    }
}

#[test]
fn unknown_asset_fails_the_scan() {
    let tree = APTNode::Apply2(
        Binary::Add,
        boxed(APTNode::X),
        boxed(APTNode::Picture(String::from("missing"), boxed(APTNode::X), boxed(APTNode::Y))),
    );
    let mut pics = Pictures::new();
    pics.insert(ActualPicture::new(String::from("present"), 1, 1, vec![0]).unwrap());
    let r = cartesian(tree).get_rgba8(&pics, 4, 4, 0, &unit::<4>);
    assert_eq!(r, Err(PicError::UnknownAsset(String::from("missing"))));
}

#[test]
fn known_asset_is_sampled() {
    let tree = APTNode::Picture(String::from("stripes"), boxed(APTNode::X), boxed(APTNode::Y));
    let mut pics = Pictures::new();
    let brightness: Vec<u32> = vec![(-1.0f32).to_bits(), 1.0f32.to_bits(), (-1.0f32).to_bits()];
    pics.insert(ActualPicture::new(String::from("stripes"), 3, 1, brightness).unwrap());
    let buf = cartesian(tree).get_rgba8(&pics, 6, 2, 0, &unit::<4>).unwrap();
    // x runs -1, -0.6, -0.2, 0.2, 0.6, 1: columns 0, 0, 1, 1, 2, 2 (the last one off the edge).
    let row = pixels(&[0, 0, 255, 255, 0, 0]);
    assert_eq!(buf, [row.clone(), row].concat());
}

#[test]
fn zero_side_is_an_invalid_parameter() {
    let pic = cartesian(APTNode::X);
    let pics = Pictures::new();
    assert_eq!(pic.get_rgba8(&pics, 0, 4, 0, &unit::<4>), Err(PicError::InvalidParameter));
    assert_eq!(pic.get_rgba8(&pics, 4, 0, 0, &unit::<4>), Err(PicError::InvalidParameter));
    assert_eq!(pic.get_rgba8(&pics, 0, 0, 0, &unit::<4>), Err(PicError::InvalidParameter));
}

#[test]
fn prepare_checks_before_anything_is_scanned() {
    let pics = Pictures::new();
    let tree = APTNode::Picture(String::from("missing"), boxed(APTNode::X), boxed(APTNode::Y));
    let bad = cartesian(tree);
    assert_eq!(bad.prepare(&pics, 0, 4).err(), Some(PicError::InvalidParameter));
    assert_eq!(bad.prepare(&pics, 4, 4).err(), Some(PicError::UnknownAsset(String::from("missing"))));
    let good = cartesian(busy_tree());
    assert_eq!(good.prepare(&pics, 4, 0).err(), Some(PicError::InvalidParameter));
    let sm = good.prepare(&pics, 4, 4).unwrap();
    assert_eq!(sm.instructions, StackMachine::build(&good.c).instructions);
}

#[test]
fn zero_side_is_reported_before_an_unknown_asset() {
    let tree = APTNode::Picture(String::from("missing"), boxed(APTNode::X), boxed(APTNode::Y));
    let r = cartesian(tree).get_rgba8(&Pictures::new(), 0, 4, 0, &unit::<4>);
    assert_eq!(r, Err(PicError::InvalidParameter));
}

#[test]
fn x_runs_from_minus_one_to_one() {
    // -1 + (2 / 4) * col: -1, -0.5, 0, 0.5, 1.
    let buf = scan::<4>(&cartesian(APTNode::X), 5, 1, 0.0);
    assert_eq!(buf, pixels(&[0, 0, 255, 255, 255]));
    let shifted = APTNode::Apply2(Binary::Sub, boxed(APTNode::X), boxed(constant(0.75)));
    let buf = scan::<4>(&cartesian(shifted), 9, 1, 0.0);
    assert_eq!(buf, pixels(&[0, 0, 0, 0, 0, 0, 0, 255, 255]));
}

#[test]
fn y_runs_from_minus_one_up() {
    // (row / 4) * 2 - 1: -1, -0.5, 0, 0.5.
    let buf = scan::<4>(&cartesian(APTNode::Y), 2, 4, 0.0);
    assert_eq!(buf, pixels(&[0, 0, 0, 0, 255, 255, 255, 255]));
}

#[test]
fn time_and_sides_reach_the_expression() {
    assert_eq!(scan::<4>(&cartesian(APTNode::T), 2, 1, 0.25), pixels(&[255, 255]));
    assert_eq!(scan::<4>(&cartesian(APTNode::T), 2, 1, -1.0), pixels(&[0, 0]));
    let wide = APTNode::Apply2(Binary::Sub, boxed(APTNode::Width), boxed(constant(5.0)));
    assert_eq!(scan::<4>(&cartesian(wide.clone()), 5, 1, 0.0), pixels(&[255; 5]));
    assert_eq!(scan::<4>(&cartesian(wide), 4, 1, 0.0), pixels(&[0; 4]));
    let high = APTNode::Apply2(Binary::Sub, boxed(APTNode::Height), boxed(constant(3.0)));
    assert_eq!(scan::<4>(&cartesian(high.clone()), 1, 3, 0.0), pixels(&[255; 3]));
    assert_eq!(scan::<4>(&cartesian(high), 1, 2, 0.0), pixels(&[0; 2]));
}

#[test]
fn polar_reads_radius_and_angle() {
    // The radius is never negative.
    let radius = scan::<4>(&polar(APTNode::X), 5, 4, 0.0);
    assert!(radius.iter().all(|b| *b == 255));
    // The angle is at least zero exactly where y is.
    let angle = scan::<4>(&polar(APTNode::Y), 3, 4, 0.0);
    assert_eq!(angle, pixels(&[0, 0, 0, 0, 0, 0, 255, 255, 255, 255, 255, 255]));
    // Radius at most a quarter: only the middle of a 5 by 4 image, on the row where y is 0.
    let inside = APTNode::Apply2(Binary::Sub, boxed(constant(0.25)), boxed(APTNode::X));
    let disc = scan::<4>(&polar(inside), 5, 4, 0.0);
    let mut want = vec![0u8; 20];
    want[12] = 255;
    assert_eq!(disc, pixels(&want));
}

#[test]
fn width_one_and_height_one_scan() {
    let pic = cartesian(busy_tree());
    assert_eq!(scan::<4>(&pic, 1, 1, 0.5).len(), 4);
    assert_eq!(scan::<4>(&pic, 1, 7, 0.5).len(), 28);
    assert_eq!(scan::<4>(&pic, 7, 1, 0.5).len(), 28);
    assert_eq!(scan::<8>(&pic, 1, 1, 0.5), scan::<1>(&pic, 1, 1, 0.5));
    assert_eq!(scan::<8>(&pic, 1, 7, 0.5), scan::<1>(&pic, 1, 7, 0.5));
    assert_eq!(scan::<8>(&pic, 7, 1, 0.5), scan::<1>(&pic, 7, 1, 0.5));
}

#[test]
fn a_short_last_batch_writes_only_its_own_row() {
    let pic = cartesian(APTNode::Apply2(Binary::Sub, boxed(APTNode::X), boxed(APTNode::Y)));
    let (w, h) = (5usize, 3usize);
    let buf = scan::<4>(&pic, w, h, 0.0);
    assert_eq!(buf.len(), w * h * 4);
    let sm = StackMachine::build(&pic.c);
    for row in 0..h {
        let line = pic.get_row(&sm, &Pictures::new(), w, h, 0, row, &unit::<4>);
        assert_eq!(line.len(), w * 4);
        assert_eq!(&buf[row * w * 4..(row + 1) * w * 4], &line[..]);
    }
    // x - y at least zero: x is -1, -0.5, 0, 0.5, 1 and y is -1, -1/3, 1/3.
    let want: Vec<u8> = [
        pixels(&[255, 255, 255, 255, 255]),
        pixels(&[0, 0, 255, 255, 255]),
        pixels(&[0, 0, 0, 255, 255]),
    ]
    .concat();
    assert_eq!(buf, want);
}

#[test]
fn the_number_of_lanes_does_not_change_the_image() {
    for coord in [CoordinateSystem::Cartesian, CoordinateSystem::Polar] {
        let pic = MonoData { c: busy_tree(), coord };
        for (w, h) in [(13usize, 7usize), (16, 4), (3, 5), (1, 1)] {
            let one = scan::<1>(&pic, w, h, 0.125);
            assert_eq!(scan::<4>(&pic, w, h, 0.125), one);
            assert_eq!(scan::<8>(&pic, w, h, 0.125), one);
            assert_eq!(scan::<3>(&pic, w, h, 0.125), one);
        }
    }
}

#[test]
fn scanning_twice_gives_the_same_bytes() {
    let pic = polar(busy_tree());
    assert_eq!(scan::<4>(&pic, 17, 9, 0.75), scan::<4>(&pic, 17, 9, 0.75));
}

#[test]
fn rows_scanned_out_of_order_make_the_same_image() {
    let pic = polar(busy_tree());
    let (w, h) = (11usize, 6usize);
    let whole = scan::<4>(&pic, w, h, 0.75);
    let sm = StackMachine::build(&pic.c);
    let mut buf = vec![7u8; w * h * 4];
    for row in [5usize, 0, 3, 1, 4, 2] {
        let line = pic.get_row(&sm, &Pictures::new(), w, h, 0.75f32.to_bits(), row, &unit::<4>);
        buf[row * w * 4..(row + 1) * w * 4].copy_from_slice(&line);
    }
    assert_eq!(buf, whole);
}

#[test]
fn every_pixel_is_opaque_black_or_white() {
    let buf = scan::<4>(&cartesian(busy_tree()), 10, 10, 0.3);
    let mut white: usize = 0;
    for px in buf.chunks(4) {
        assert!(px == [0, 0, 0, 255] || px == [255, 255, 255, 255]);
        if px[0] == 255 {
            white += 1;
        }
    }
    assert!(white > 0 && white < 100);
}

#[test]
fn a_picture_of_any_kind_scans_as_its_kind_does() {
    let m = cartesian(busy_tree());
    let want = scan::<4>(&m, 6, 5, 0.5);
    let p = Pic::Mono(m);
    assert_eq!(p.get_rgba8(&Pictures::new(), 6, 5, 0.5f32.to_bits(), &unit::<4>), Ok(want));
    assert_eq!(
        p.get_rgba8(&Pictures::new(), 0, 5, 0, &unit::<4>),
        Err(PicError::InvalidParameter)
    );
}

#[test]
fn the_largest_side_fits_a_signed_lane() {
    assert_eq!(MAX_SIDE, i32::MAX as usize);
}

#[test]
fn write_batch_appends_four_bytes_per_valid_lane() {
    let mut out: Vec<u8> = vec![1, 1, 1, 255];
    let v = [0.5f32.to_bits(), (-0.5f32).to_bits(), 0.0f32.to_bits(), f32::NAN.to_bits()];
    write_batch(&mut out, v, 3);
    assert_eq!(out, vec![1, 1, 1, 255, 255, 255, 255, 255, 0, 0, 0, 255, 255, 255, 255, 255]);
    write_batch(&mut out, v, 0);
    assert_eq!(out.len(), 16);
}

#[test]
fn column_lanes_repeat_the_last_column_past_the_end() {
    assert_eq!(column_lanes::<4>(0, 10), [0, 1, 2, 3]);
    assert_eq!(column_lanes::<4>(8, 10), [8, 9, 9, 9]);
    assert_eq!(column_lanes::<4>(0, 1), [0, 0, 0, 0]);
    assert_eq!(column_lanes::<1>(6, 7), [6]);
}

#[test]
fn generate_is_repeatable_for_a_seed() {
    let list = names(&["a", "b"]);
    let refs: Vec<&String> = list.iter().collect();
    for seed in 0u64..40 {
        let first = generate(1, 60, true, seed, &refs).unwrap();
        let second = generate(1, 60, true, seed, &refs).unwrap();
        assert_eq!(first, second);
    }
}

#[test]
fn generate_then_scan_is_repeatable() {
    let refs: Vec<&String> = Vec::new();
    for seed in 0u64..10 {
        let first = mono(generate(5, 40, true, seed, &refs).unwrap());
        let second = mono(generate(5, 40, true, seed, &refs).unwrap());
        assert_eq!(scan::<4>(&first, 9, 5, 0.5), scan::<8>(&second, 9, 5, 0.5));
    }
}

#[test]
fn generate_differs_between_seeds() {
    let refs: Vec<&String> = Vec::new();
    let first = generate(30, 30, true, 1, &refs).unwrap();
    let mut differs = false;
    for seed in 2u64..12 {
        if generate(30, 30, true, seed, &refs).unwrap() != first {
            differs = true;
        }
    }
    assert!(differs);
}

#[test]
fn generate_keeps_the_node_count_within_the_bounds() {
    let refs: Vec<&String> = Vec::new();
    for seed in 0u64..200 {
        let m = mono(generate(3, 12, false, seed, &refs).unwrap());
        let n = count_nodes(&m.c);
        assert!(3 <= n && n <= 12, "seed {} gave {} nodes", seed, n);
    }
    for count in 1usize..30 {
        let m = mono(generate(count, count, true, 99, &refs).unwrap());
        assert_eq!(count_nodes(&m.c), count);
    }
}

#[test]
fn generate_refuses_bad_bounds() {
    let refs: Vec<&String> = Vec::new();
    assert_eq!(generate(0, 5, false, 1, &refs), Err(PicError::InvalidParameter));
    assert_eq!(generate(0, 0, false, 1, &refs), Err(PicError::InvalidParameter));
    assert_eq!(generate(6, 5, false, 1, &refs), Err(PicError::InvalidParameter));
    assert!(generate(5, 5, false, 1, &refs).is_ok());
}

#[test]
fn generate_leaves_the_time_out_unless_allowed() {
    let refs: Vec<&String> = Vec::new();
    let mut seen = false;
    for seed in 0u64..200 {
        let still = mono(generate(1, 25, false, seed, &refs).unwrap());
        assert!(!still.c.has_time());
        let moving = mono(generate(1, 25, true, seed, &refs).unwrap());
        seen = seen || moving.c.has_time();
    }
    assert!(seen);
}

#[test]
fn generate_samples_only_offered_pictures() {
    let none: Vec<&String> = Vec::new();
    let list = names(&["sky", "sea"]);
    let refs: Vec<&String> = list.iter().collect();
    let mut seen: Vec<String> = Vec::new();
    for seed in 0u64..200 {
        let bare = mono(generate(3, 30, true, seed, &none).unwrap());
        let mut found: Vec<String> = Vec::new();
        sampled_names(&bare.c, &mut found);
        assert!(found.is_empty());
        let rich = mono(generate(3, 30, true, seed, &refs).unwrap());
        sampled_names(&rich.c, &mut seen);
    }
    assert!(seen.iter().all(|n| n == "sky" || n == "sea"));
    assert!(seen.iter().any(|n| n == "sky"));
    assert!(seen.iter().any(|n| n == "sea"));
}

#[test]
fn generate_draws_constants_of_magnitude_below_one() {
    let refs: Vec<&String> = Vec::new();
    let mut all: Vec<u32> = Vec::new();
    for seed in 0u64..100 {
        constants(&mono(generate(1, 40, true, seed, &refs).unwrap()).c, &mut all);
    }
    assert!(!all.is_empty());
    for bits in all {
        let v = f32::from_bits(bits);
        assert!(v.abs() < 1.0 && v.abs() >= 0.0625, "constant {}", v);
    }
}

#[test]
fn generate_draws_both_coordinate_systems() {
    let refs: Vec<&String> = Vec::new();
    let mut cartesian_seen = false;
    let mut polar_seen = false;
    for seed in 0u64..50 {
        match mono(generate(1, 5, true, seed, &refs).unwrap()).coord {
            CoordinateSystem::Cartesian => cartesian_seen = true,
            CoordinateSystem::Polar => polar_seen = true,
        }
    }
    assert!(cartesian_seen && polar_seen);
}

#[test]
fn generated_pictures_scan_without_unknown_assets() {
    let list = names(&["sky"]);
    let refs: Vec<&String> = list.iter().collect();
    let mut pics = Pictures::new();
    let brightness: Vec<u32> = vec![0.5f32.to_bits(), (-0.5f32).to_bits(), 0, 0x3F80_0000];
    pics.insert(ActualPicture::new(String::from("sky"), 2, 2, brightness).unwrap());
    for seed in 0u64..60 {
        let m = mono(generate(1, 50, true, seed, &refs).unwrap());
        let buf = m.get_rgba8(&pics, 7, 3, 0.5f32.to_bits(), &unit::<4>).unwrap();
        assert_eq!(buf.len(), 7 * 3 * 4);
    }
}

#[test]
fn new_draws_from_the_generator_it_is_given() {
    let refs: Vec<&String> = Vec::new();
    let mut rng = StdRng::seed_from_u64(5);
    let first = MonoData::new(4, 9, true, &mut rng, &refs).unwrap();
    let second = MonoData::new(4, 9, true, &mut rng, &refs).unwrap();
    let mut again = StdRng::seed_from_u64(5);
    assert_eq!(MonoData::new(4, 9, true, &mut again, &refs).unwrap(), first);
    assert_eq!(MonoData::new(4, 9, true, &mut again, &refs).unwrap(), second);
    assert_eq!(generate(4, 9, true, 5, &refs).unwrap(), first);
    assert_eq!(MonoData::new(0, 9, true, &mut again, &refs), Err(PicError::InvalidParameter));
}

#[test]
fn generate_tree_has_exactly_the_nodes_asked_for() {
    let refs: Vec<&String> = Vec::new();
    let mut rng = StdRng::seed_from_u64(11);
    for count in 1usize..40 {
        let (tree, _) = APTNode::generate_tree(count, true, &mut rng, &refs);
        assert_eq!(count_nodes(&tree), count);
        assert_eq!(count_nodes(&APTNode::grow(count, false, &mut rng, &refs)), count);
    }
}

#[test]
fn shapes_follow_the_node_count() {
    assert_eq!(shapes(1, true), 1);
    assert_eq!(shapes(2, true), 1);
    assert_eq!(shapes(3, false), 2);
    assert_eq!(shapes(3, true), 3);
    assert_eq!(shapes(4, false), 3);
    assert_eq!(shapes(9, true), 4);
    assert_eq!(shape_of(1, true, 0), Shape::Leaf);
    assert_eq!(shape_of(2, true, 0), Shape::One);
    assert_eq!(shape_of(3, true, 0), Shape::One);
    assert_eq!(shape_of(3, true, 1), Shape::Two);
    assert_eq!(shape_of(3, true, 2), Shape::Sample);
    assert_eq!(shape_of(4, false, 2), Shape::Three);
    assert_eq!(shape_of(4, true, 3), Shape::Sample);
}

#[test]
fn splits_share_all_nodes_but_the_root() {
    assert_eq!(split_two(3, 0), (1, 1));
    assert_eq!(split_two(10, 0), (1, 8));
    assert_eq!(split_two(10, 7), (8, 1));
    assert_eq!(split_three(4, 0, 0), (1, 1, 1));
    assert_eq!(split_three(10, 0, 6), (1, 7, 1));
    assert_eq!(split_three(10, 6, 0), (7, 1, 1));
    assert_eq!(split_three(10, 2, 3), (3, 4, 2));
}

#[test]
fn draws_select_leaves_and_operators() {
    assert_eq!(leaf_node(0, 9), APTNode::X);
    assert_eq!(leaf_node(1, 9), APTNode::Y);
    assert_eq!(leaf_node(2, 9), APTNode::Width);
    assert_eq!(leaf_node(3, 9), APTNode::Height);
    assert_eq!(leaf_node(4, 9), APTNode::Constant(9));
    assert_eq!(leaf_node(5, 9), APTNode::T);
    assert_eq!(unary_of(0), Unary::Sin);
    assert_eq!(unary_of(4), Unary::Floor);
    assert_eq!(binary_of(0), Binary::Add);
    assert_eq!(binary_of(4), Binary::Mod);
    assert_eq!(binary_of(7), Binary::Atan2);
    assert_eq!(ternary_of(0), Ternary::Clamp);
    assert_eq!(ternary_of(1), Ternary::Select);
    assert_eq!(coordinate_of(0), CoordinateSystem::Cartesian);
    assert_eq!(coordinate_of(1), CoordinateSystem::Polar);
}

#[test]
fn constant_bits_assembles_the_three_fields() {
    assert_eq!(constant_bits(0, 126, 0), 0.5f32.to_bits());
    assert_eq!(constant_bits(1, 126, 0), (-0.5f32).to_bits());
    assert_eq!(constant_bits(0, 125, 0x40_0000), 0.375f32.to_bits());
    assert_eq!(constant_bits(0, 0, 0), 0);
    assert_eq!(constant_bits(1, 126, 0x7F_FFFF), (-0.99999994f32).to_bits());
}

#[test]
fn clone_copies_a_picture() {
    let m = polar(busy_tree());
    assert_eq!(m.clone(), m);
}

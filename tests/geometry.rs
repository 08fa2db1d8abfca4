use msdf::math::{max, median, min, solve_cubic, solve_cubic_depressed, solve_cubic_normalized,
    solve_linear, solve_quadratic};
use msdf::raster::Rasterizer;
use msdf::scalar::Scalar;
use msdf::shape::{EdgeSegment, Point2, Shape, ShapeBuilder};
use num_traits::ToPrimitive;
use vek::{CubicBezier2, QuadraticBezier2, Vec2};

#[derive(Clone, Copy, Debug, PartialEq)]
struct F(f64);

fn vec2(p: Point2<F>) -> Vec2<f64> {
    Vec2::new(p.x.0, p.y.0)
}

// The spec-side items of the trait are the executable operations themselves.
impl Scalar for F {
    fn spec_zero() -> F {
        <F as Scalar>::zero()
    }
    fn spec_one() -> F {
        <F as Scalar>::one()
    }
    fn spec_epsilon() -> F {
        <F as Scalar>::epsilon()
    }
    fn spec_frac_pi_3() -> F {
        <F as Scalar>::frac_pi_3()
    }
    fn spec_from_u16(n: u16) -> F {
        <F as Scalar>::from_u16(n)
    }
    fn spec_from_usize(n: usize) -> F {
        <F as Scalar>::from_usize(n)
    }
    fn spec_add(a: F, b: F) -> F {
        a.add(b)
    }
    fn spec_sub(a: F, b: F) -> F {
        a.sub(b)
    }
    fn spec_mul(a: F, b: F) -> F {
        a.mul(b)
    }
    fn spec_div(a: F, b: F) -> F {
        a.div(b)
    }
    fn spec_neg(a: F) -> F {
        a.neg()
    }
    fn spec_abs(a: F) -> F {
        a.abs()
    }
    fn spec_sqrt(a: F) -> F {
        a.sqrt()
    }
    fn spec_cbrt(a: F) -> F {
        a.cbrt()
    }
    fn spec_acos(a: F) -> F {
        a.acos()
    }
    fn spec_cos(a: F) -> F {
        a.cos()
    }
    fn spec_round(a: F) -> F {
        a.round()
    }
    fn spec_to_u8(a: F) -> Option<u8> {
        a.to_u8()
    }
    fn spec_lt(a: F, b: F) -> bool {
        a.lt(&b)
    }
    fn spec_eq(a: F, b: F) -> bool {
        Scalar::eq(&a, &b)
    }
    fn spec_search_quadratic(
        start: Point2<F>,
        ctrl: Point2<F>,
        end: Point2<F>,
        p: Point2<F>,
        steps: u16,
        epsilon: F,
    ) -> (F, Point2<F>) {
        F::search_quadratic(start, ctrl, end, p, steps, epsilon)
    }
    fn spec_search_cubic(
        start: Point2<F>,
        ctrl0: Point2<F>,
        ctrl1: Point2<F>,
        end: Point2<F>,
        p: Point2<F>,
        steps: u16,
        epsilon: F,
    ) -> (F, Point2<F>) {
        F::search_cubic(start, ctrl0, ctrl1, end, p, steps, epsilon)
    }
    fn lemma_lt_asymmetric(_a: F, _b: F) {}
    fn lemma_lt_transitive(_a: F, _b: F, _c: F) {}
    fn lemma_epsilon_positive() {}
    fn zero() -> F {
        F(0.0)
    }
    fn one() -> F {
        F(1.0)
    }
    fn epsilon() -> F {
        F(f64::EPSILON)
    }
    fn frac_pi_3() -> F {
        F(std::f64::consts::FRAC_PI_3)
    }
    fn from_u16(n: u16) -> F {
        F(n as f64)
    }
    fn from_usize(n: usize) -> F {
        F(n as f64)
    }
    fn add(self, b: F) -> F {
        F(self.0 + b.0)
    }
    fn sub(self, b: F) -> F {
        F(self.0 - b.0)
    }
    fn mul(self, b: F) -> F {
        F(self.0 * b.0)
    }
    fn div(self, b: F) -> F {
        F(self.0 / b.0)
    }
    fn neg(self) -> F {
        F(-self.0)
    }
    fn abs(self) -> F {
        F(self.0.abs())
    }
    fn sqrt(self) -> F {
        F(self.0.sqrt())
    }
    fn cbrt(self) -> F {
        F(self.0.cbrt())
    }
    fn acos(self) -> F {
        F(self.0.acos())
    }
    fn cos(self) -> F {
        F(self.0.cos())
    }
    fn round(self) -> F {
        F(self.0.round())
    }
    fn to_u8(self) -> Option<u8> {
        self.0.to_u8()
    }
    fn lt(&self, b: &F) -> bool {
        self.0 < b.0
    }
    fn eq(&self, b: &F) -> bool {
        self.0 == b.0
    }
    fn search_quadratic(
        start: Point2<F>,
        ctrl: Point2<F>,
        end: Point2<F>,
        p: Point2<F>,
        steps: u16,
        epsilon: F,
    ) -> (F, Point2<F>) {
        let curve = QuadraticBezier2 { start: vec2(start), ctrl: vec2(ctrl), end: vec2(end) };
        let (t, q) = curve.binary_search_point_by_steps(vec2(p), steps, epsilon.0);
        (F(t), Point2 { x: F(q.x), y: F(q.y) })
    }
    fn search_cubic(
        start: Point2<F>,
        ctrl0: Point2<F>,
        ctrl1: Point2<F>,
        end: Point2<F>,
        p: Point2<F>,
        steps: u16,
        epsilon: F,
    ) -> (F, Point2<F>) {
        let curve = CubicBezier2 {
            start: vec2(start),
            ctrl0: vec2(ctrl0),
            ctrl1: vec2(ctrl1),
            end: vec2(end),
        };
        let (t, q) = curve.binary_search_point_by_steps(vec2(p), steps, epsilon.0);
        (F(t), Point2 { x: F(q.x), y: F(q.y) })
    }
}

fn f(v: f64) -> F {
    F(v)
}

fn values(v: &[F]) -> Vec<f64> {
    v.iter().map(|x| x.0).collect()
}

fn sorted_values(v: &[F]) -> Vec<f64> {
    let mut out = values(v);
    out.sort_by(|a, b| a.partial_cmp(b).unwrap());
    out
}

fn close(a: f64, b: f64, tol: f64) -> bool {
    (a - b).abs() <= tol
}

fn square_builder() -> ShapeBuilder<F> {
    let mut b = ShapeBuilder::new();
    b.move_to(f(0.0), f(0.0));
    b.line_to(f(10.0), f(0.0));
    b.line_to(f(10.0), f(10.0));
    b.line_to(f(0.0), f(10.0));
    b
}

fn square() -> Shape<F> {
    square_builder().finish().unwrap()
}

fn eval_poly(coeffs: &[f64], x: f64) -> f64 {
    // coefficients from the highest degree down
    coeffs.iter().fold(0.0, |acc, c| acc * x + c)
}

#[test]
fn min_max_median_pick_expected_values() {
    assert_eq!(min(f(3.0), f(1.0)), f(1.0));
    assert_eq!(min(f(1.0), f(3.0)), f(1.0));
    assert_eq!(max(f(3.0), f(1.0)), f(3.0));
    assert_eq!(max(f(1.0), f(3.0)), f(3.0));
    assert_eq!(median(f(3.0), f(1.0), f(2.0)), f(2.0));
    assert_eq!(median(f(1.0), f(2.0), f(3.0)), f(2.0));
    assert_eq!(median(f(2.0), f(3.0), f(1.0)), f(2.0));
}

#[test]
fn linear_solver_cases() {
    assert_eq!(solve_linear(f(2.0), f(4.0)), Some(f(-2.0)));
    assert_eq!(solve_linear(f(0.0), f(0.0)), Some(f(0.0)));
    assert_eq!(solve_linear(f(0.0), f(1.0)), None);
}

#[test]
fn quadratic_root_count_follows_discriminant() {
    // x^2 - 3x + 2: two roots
    assert_eq!(sorted_values(&solve_quadratic(f(1.0), f(-3.0), f(2.0))), vec![1.0, 2.0]);
    // x^2 - 2x + 1: one root
    assert_eq!(values(&solve_quadratic(f(1.0), f(-2.0), f(1.0))), vec![1.0]);
    // x^2 + 1: none
    assert!(solve_quadratic(f(1.0), f(0.0), f(1.0)).is_empty());
    // leading coefficient zero: the linear root
    assert_eq!(values(&solve_quadratic(f(0.0), f(2.0), f(-4.0))), vec![2.0]);
}

#[test]
fn solver_roots_have_small_residuals() {
    let quadratics: [[f64; 3]; 3] = [[1.0, -3.0, 2.0], [2.0, 1.0, -6.0], [1.0, -2.0, 1.0]];
    for q in quadratics.iter() {
        for r in solve_quadratic(f(q[0]), f(q[1]), f(q[2])) {
            assert!(eval_poly(q, r.0).abs() < 1e-9);
        }
    }
    let cubics: [[f64; 4]; 4] = [
        [1.0, -6.0, 11.0, -6.0],
        [2.0, -3.0, -11.0, 6.0],
        [1.0, 0.0, -7.0, 6.0],
        [1.0, 0.0, 1.0, 2.0],
    ];
    for c in cubics.iter() {
        let roots = solve_cubic(f(c[0]), f(c[1]), f(c[2]), f(c[3]));
        assert!(!roots.is_empty());
        for r in roots {
            assert!(eval_poly(c, r.0).abs() < 1e-6, "{:?} at {}", c, r.0);
        }
    }
}

#[test]
fn cubic_three_real_roots() {
    // (x - 1)(x - 2)(x - 3)
    let roots = sorted_values(&solve_cubic(f(1.0), f(-6.0), f(11.0), f(-6.0)));
    assert_eq!(roots.len(), 3);
    for (r, e) in roots.iter().zip([1.0, 2.0, 3.0].iter()) {
        assert!(close(*r, *e, 1e-9));
    }
    // depressed: x^3 - 7x + 6 = (x - 1)(x - 2)(x + 3)
    let roots = sorted_values(&solve_cubic_depressed(f(-7.0), f(6.0)));
    assert_eq!(roots.len(), 3);
    for (r, e) in roots.iter().zip([-3.0, 1.0, 2.0].iter()) {
        assert!(close(*r, *e, 1e-9));
    }
    // normalized: x^3 - 6x^2 + 11x - 6
    let roots = sorted_values(&solve_cubic_normalized(f(-6.0), f(11.0), f(-6.0)));
    assert_eq!(roots.len(), 3);
    for (r, e) in roots.iter().zip([1.0, 2.0, 3.0].iter()) {
        assert!(close(*r, *e, 1e-9));
    }
}

#[test]
fn depressed_cubic_special_cases() {
    // b = 0: x^3 + 8 = 0
    assert_eq!(values(&solve_cubic_depressed(f(0.0), f(8.0))), vec![-2.0]);
    // a = 0: x^3 - x = x(x - 1)(x + 1)
    assert_eq!(sorted_values(&solve_cubic_depressed(f(-1.0), f(0.0))), vec![-1.0, 0.0, 1.0]);
    // one real root: x^3 + x + 2 = (x + 1)(x^2 - x + 2)
    let roots = values(&solve_cubic_depressed(f(1.0), f(2.0)));
    assert_eq!(roots.len(), 1);
    assert!(close(roots[0], -1.0, 1e-9));
}

#[test]
fn segment_boxes_include_extrema() {
    let line = EdgeSegment::Linear {
        start: Point2::new(f(3.0), f(-1.0)),
        end: Point2::new(f(1.0), f(2.0)),
    };
    let b = line.aabr();
    assert_eq!((b.min.x, b.min.y, b.max.x, b.max.y), (f(1.0), f(-1.0), f(3.0), f(2.0)));

    let quad = EdgeSegment::Quadratic {
        start: Point2::new(f(0.0), f(0.0)),
        ctrl: Point2::new(f(1.0), f(2.0)),
        end: Point2::new(f(2.0), f(0.0)),
    };
    let b = quad.aabr();
    assert_eq!((b.min.x, b.min.y, b.max.x), (f(0.0), f(0.0), f(2.0)));
    assert!(close(b.max.y.0, 1.0, 1e-12));

    let cubic = EdgeSegment::Cubic {
        start: Point2::new(f(0.0), f(0.0)),
        ctrl0: Point2::new(f(0.0), f(4.0)),
        ctrl1: Point2::new(f(4.0), f(4.0)),
        end: Point2::new(f(4.0), f(0.0)),
    };
    let b = cubic.aabr();
    assert!(close(b.max.y.0, 3.0, 1e-9));
    assert_eq!((b.min.x, b.min.y, b.max.x), (f(0.0), f(0.0), f(4.0)));
}

#[test]
fn segment_evaluation() {
    let quad = EdgeSegment::Quadratic {
        start: Point2::new(f(0.0), f(0.0)),
        ctrl: Point2::new(f(1.0), f(2.0)),
        end: Point2::new(f(2.0), f(0.0)),
    };
    let p = quad.evaluate(f(0.5));
    assert_eq!((p.x, p.y), (f(1.0), f(1.0)));
    let line = EdgeSegment::Linear {
        start: Point2::new(f(0.0), f(0.0)),
        end: Point2::new(f(4.0), f(2.0)),
    };
    let p = line.evaluate(f(0.25));
    assert_eq!((p.x, p.y), (f(1.0), f(0.5)));
    assert_eq!(line.end().x, f(4.0));
}

#[test]
fn line_crossing_counts_shared_vertex_once() {
    let up = EdgeSegment::Linear {
        start: Point2::new(f(0.0), f(0.0)),
        end: Point2::new(f(1.0), f(10.0)),
    };
    let down = EdgeSegment::Linear {
        start: Point2::new(f(1.0), f(10.0)),
        end: Point2::new(f(2.0), f(0.0)),
    };
    assert_eq!(values(&up.scanline_intersections(f(5.0))), vec![0.5]);
    // y = 0 is the lower end of both lines: counted by each
    assert_eq!(values(&up.scanline_intersections(f(0.0))), vec![0.0]);
    // y = 10 is the upper end: counted by neither
    assert!(up.scanline_intersections(f(10.0)).is_empty());
    assert!(down.scanline_intersections(f(10.0)).is_empty());
    // outside the span
    assert!(up.scanline_intersections(f(11.0)).is_empty());
}

#[test]
fn curve_crossings() {
    let quad = EdgeSegment::Quadratic {
        start: Point2::new(f(0.0), f(0.0)),
        ctrl: Point2::new(f(1.0), f(2.0)),
        end: Point2::new(f(2.0), f(0.0)),
    };
    let xs = sorted_values(&quad.scanline_intersections(f(0.5)));
    assert_eq!(xs.len(), 2);
    assert!(close(xs[0] + xs[1], 2.0, 1e-9));
    let cubic = EdgeSegment::Cubic {
        start: Point2::new(f(0.0), f(0.0)),
        ctrl0: Point2::new(f(0.0), f(1.0)),
        ctrl1: Point2::new(f(0.0), f(2.0)),
        end: Point2::new(f(0.0), f(3.0)),
    };
    let xs = values(&cubic.scanline_intersections(f(1.5)));
    assert_eq!(xs.len(), 1);
    assert!(close(xs[0], 0.0, 1e-9));
}

#[test]
fn line_closest_point_is_clamped_projection() {
    let line = EdgeSegment::Linear {
        start: Point2::new(f(0.0), f(0.0)),
        end: Point2::new(f(10.0), f(0.0)),
    };
    let (d, p) = line.closest_point(Point2::new(f(4.0), f(3.0)), f(0.01));
    assert_eq!((d, p.x, p.y), (f(3.0), f(4.0), f(0.0)));
    let (d, p) = line.closest_point(Point2::new(f(13.0), f(4.0)), f(0.01));
    assert_eq!((d, p.x, p.y), (f(5.0), f(10.0), f(0.0)));
}

#[test]
fn curve_closest_point_is_never_extrapolated() {
    let quad = EdgeSegment::Quadratic {
        start: Point2::new(f(0.0), f(0.0)),
        ctrl: Point2::new(f(1.0), f(2.0)),
        end: Point2::new(f(2.0), f(0.0)),
    };
    let (d, p) = quad.closest_point(Point2::new(f(1.0), f(3.0)), f(0.001));
    assert!(close(p.x.0, 1.0, 0.05));
    assert!(close(d.0, 2.0, 0.05));
    let (d, p) = quad.closest_point(Point2::new(f(-3.0), f(-4.0)), f(0.001));
    assert_eq!((p.x, p.y), (f(0.0), f(0.0)));
    assert!(close(d.0, 5.0, 1e-12));
}

#[test]
fn builder_closes_contours_and_flags_first_edges() {
    let mut b = square_builder();
    b.move_to(f(20.0), f(20.0));
    b.line_to(f(30.0), f(20.0));
    b.line_to(f(30.0), f(30.0));
    let shape = b.finish().unwrap();
    let edges = shape.edges();
    assert_eq!(edges.len(), 7);
    let flags: Vec<bool> = edges.iter().map(|e| e.is_new_contour).collect();
    assert_eq!(flags, vec![true, false, false, false, true, false, false]);
    // closing edge of the first contour goes back to its start
    match edges[3].segment {
        EdgeSegment::Linear { start, end } => {
            assert_eq!((start.x, start.y, end.x, end.y), (f(0.0), f(10.0), f(0.0), f(0.0)));
        }
        _ => panic!("closing edge must be a line"),
    }
    // the second contour starts at its own move_to point
    assert_eq!(edges[4].segment.start().x, f(20.0));
}

#[test]
fn builder_drops_zero_length_lines_and_keeps_curves() {
    let mut b = ShapeBuilder::new();
    b.move_to(f(0.0), f(0.0));
    b.line_to(f(0.0), f(0.0));
    b.line_to(f(4.0), f(0.0));
    b.line_to(f(4.0), f(0.0));
    b.quadratic_to(f(4.0), f(0.0), f(4.0), f(0.0));
    b.cubic_to(f(4.0), f(4.0), f(0.0), f(4.0), f(0.0), f(0.0));
    let shape = b.finish().unwrap();
    // line, degenerate quadratic, cubic back to start: no closing line
    assert_eq!(shape.edges().len(), 3);
}

#[test]
fn empty_builder_gives_no_shape() {
    let b: ShapeBuilder<F> = Shape::builder();
    assert!(!b.has_pen());
    assert!(b.finish().is_none());
    let mut b: ShapeBuilder<F> = ShapeBuilder::new();
    b.move_to(f(1.0), f(1.0));
    assert!(b.has_pen());
    assert!(b.finish().is_none());
}

#[test]
fn explicit_close_returns_pen_to_contour_start() {
    let mut b = ShapeBuilder::new();
    b.move_to(f(0.0), f(0.0));
    b.line_to(f(5.0), f(0.0));
    b.line_to(f(5.0), f(5.0));
    b.close();
    let shape = b.finish().unwrap();
    assert_eq!(shape.edges().len(), 3);
}

#[test]
fn shape_box_is_union_of_edge_boxes_and_holds_samples() {
    let mut b = ShapeBuilder::new();
    b.move_to(f(0.0), f(0.0));
    b.quadratic_to(f(5.0), f(8.0), f(10.0), f(0.0));
    b.cubic_to(f(12.0), f(-3.0), f(3.0), f(-6.0), f(0.0), f(-1.0));
    let shape = b.finish().unwrap();
    let bx = shape.aabr();
    let (mut lx, mut ly, mut hx, mut hy) = (f64::MAX, f64::MAX, f64::MIN, f64::MIN);
    for e in shape.edges() {
        lx = lx.min(e.aabr.min.x.0);
        ly = ly.min(e.aabr.min.y.0);
        hx = hx.max(e.aabr.max.x.0);
        hy = hy.max(e.aabr.max.y.0);
        for t in [0.0, 0.25, 0.5, 0.75, 1.0].iter() {
            let p = e.segment.evaluate(f(*t));
            let eps = 1e-9;
            assert!(p.x.0 >= bx.min.x.0 - eps && p.x.0 <= bx.max.x.0 + eps);
            assert!(p.y.0 >= bx.min.y.0 - eps && p.y.0 <= bx.max.y.0 + eps);
        }
    }
    assert_eq!((bx.min.x.0, bx.min.y.0, bx.max.x.0, bx.max.y.0), (lx, ly, hx, hy));
}

#[test]
fn parity_matches_ray_crossings() {
    let shape = square();
    for yi in 0..24 {
        let y = -1.5 + yi as f64 * 0.55;
        let mut line = shape.scanline(f(y));
        let crossings = shape.scanline_intersections(f(y));
        for xi in 0..24 {
            let x = -1.5 + xi as f64 * 0.55;
            let count = crossings.iter().filter(|c| c.0 <= x).count();
            assert_eq!(line.is_filled(f(x)), count % 2 == 1, "at ({}, {})", x, y);
            let inside = x >= 0.0 && x < 10.0 && y >= 0.0 && y < 10.0;
            assert_eq!(count % 2 == 1, inside, "at ({}, {})", x, y);
        }
    }
}

#[test]
fn square_center_distance_and_full_bitmap() {
    let shape = square();
    let (d, _) = shape.closest_point(Point2::new(f(5.0), f(5.0)), f(100.0), f(0.01)).unwrap();
    assert!(close(d.0, 5.0, 1e-9));
    let bitmap = Rasterizer::new().with_scale(f(1.0)).with_translate(f(0.0), f(0.0))
        .rasterize_bitmap(&shape, 10, 10);
    assert_eq!(bitmap.len(), 10);
    for row in bitmap.iter() {
        assert_eq!(row.len(), 10);
        assert!(row.iter().all(|p| *p));
    }
}

#[test]
fn closest_point_respects_max_distance() {
    let shape = square();
    assert!(shape.closest_point(Point2::new(f(5.0), f(5.0)), f(4.0), f(0.01)).is_none());
    assert!(shape.closest_point(Point2::new(f(30.0), f(5.0)), f(4.0), f(0.01)).is_none());
    let (d, p) = shape.closest_point(Point2::new(f(12.0), f(5.0)), f(4.0), f(0.01)).unwrap();
    assert_eq!((d, p.x, p.y), (f(2.0), f(10.0), f(5.0)));
}

#[test]
fn bitmap_rows_are_flipped() {
    // a triangle filling the lower part only
    let mut b = ShapeBuilder::new();
    b.move_to(f(0.0), f(0.0));
    b.line_to(f(4.0), f(0.0));
    b.line_to(f(4.0), f(2.0));
    b.line_to(f(0.0), f(2.0));
    let shape = b.finish().unwrap();
    let bitmap = Rasterizer::new().rasterize_bitmap(&shape, 4, 4);
    assert_eq!(bitmap[0], vec![false; 4]);
    assert_eq!(bitmap[1], vec![false; 4]);
    assert_eq!(bitmap[2], vec![true; 4]);
    assert_eq!(bitmap[3], vec![true; 4]);
}

#[test]
fn scale_and_translate_map_pixels() {
    let shape = square();
    // pixel centers at (i + 0.5) / 2 + 5: the image covers x, y in [5, 10)
    let r = Rasterizer::new().with_scale2(f(2.0), f(2.0)).with_translate(f(-5.0), f(-5.0));
    let bitmap = r.rasterize_bitmap(&shape, 12, 12);
    assert!(bitmap[11][0]);
    assert!(!bitmap[0][11]);
    assert!(bitmap[2][9]);
}

#[test]
fn sdf_is_monotonic_across_the_square() {
    let shape = square();
    let r = Rasterizer::new().with_translate(f(2.0), f(2.0));
    // 14 pixels: centers at x - 2 = -1.5 .. 11.5
    let field = r.rasterize_sdf(&shape, 14, 14, 8);
    let row = &field[14 - 1 - 7];
    // row through y = 5.5: left of the square, then inside up to the center
    let values: Vec<u8> = row.clone();
    for x in 2..6 {
        assert!(values[x] < values[x + 1], "{:?}", values);
    }
    assert!(values[2] > 128);
    assert!(values[1] < 128);
    assert!(values[0] < values[1]);
    let center = values[7];
    assert!(center > 128);
    // far away, beyond the offset: sentinel
    let far = r.with_translate(f(100.0), f(100.0)).rasterize_sdf(&shape, 3, 3, 8);
    assert!(far.iter().all(|row| row.iter().all(|v| *v == 0)));
}

#[test]
fn sdf_decreases_outward_to_sentinel() {
    let shape = square();
    // one row at y = 5.5, columns from x = 10.5 outward
    let r = Rasterizer::new().with_translate(f(-10.0), f(-5.0));
    let field = r.rasterize_sdf(&shape, 6, 1, 4);
    let row = &field[0];
    assert!(row[0] < 128);
    for x in 0..3 {
        assert!(row[x] > row[x + 1], "{:?}", row);
    }
    assert_eq!(row[4], 0);
    assert_eq!(row[5], 0);
}

#[test]
fn sdf_encoding_exact_values() {
    let shape = square();
    // pixel center (5.5, 5.5): 4.5 from the nearest edge; offset 16
    let r = Rasterizer::new().with_translate(f(-5.0), f(-5.0));
    let field = r.rasterize_sdf(&shape, 1, 1, 16);
    // 128 + round(4.5 * 128 / 16) = 128 + 36
    assert_eq!(field[0][0], 164);
    // pixel center (-0.5, 5.5): 0.5 outside; 128 - round(0.5 * 8) = 124
    let r = Rasterizer::new().with_translate(f(1.0), f(-5.0));
    let field = r.rasterize_sdf(&shape, 1, 1, 16);
    assert_eq!(field[0][0], 124);
    // pixel center (4, 4): exactly the offset 4 inside, 128 + 128 clamps to 255
    let r = Rasterizer::new().with_translate(f(-3.5), f(-3.5));
    let field = r.rasterize_sdf(&shape, 1, 1, 4);
    assert_eq!(field[0][0], 255);
    // pixel center (5.5, 5.5) is farther than the offset from every edge
    let r = Rasterizer::new().with_translate(f(-5.0), f(-5.0));
    let field = r.rasterize_sdf(&shape, 1, 1, 4);
    assert_eq!(field[0][0], 0);
}

#[test]
fn rasterizing_twice_gives_identical_output() {
    let mut b = ShapeBuilder::new();
    b.move_to(f(1.0), f(1.0));
    b.quadratic_to(f(6.0), f(12.0), f(11.0), f(1.0));
    b.cubic_to(f(8.0), f(4.0), f(4.0), f(-2.0), f(1.0), f(1.0));
    let shape = b.finish().unwrap();
    let r = Rasterizer::new().with_scale2(f(1.5), f(2.0)).with_translate(f(0.5), f(0.25));
    assert_eq!(r.rasterize_bitmap(&shape, 20, 20), r.rasterize_bitmap(&shape, 20, 20));
    assert_eq!(r.rasterize_sdf(&shape, 20, 20, 6), r.rasterize_sdf(&shape, 20, 20, 6));
}

#[test]
fn scanline_queries_in_any_order_agree() {
    let shape = square();
    let xs = [3.0, -1.0, 12.0, 0.0, 9.99, 10.0, 5.0, -0.5, 7.0];
    let mut fresh = Vec::new();
    for x in xs.iter() {
        let mut line = shape.scanline(f(4.0));
        fresh.push(line.is_filled(f(*x)));
    }
    let mut line = shape.scanline(f(4.0));
    let reused: Vec<bool> = xs.iter().map(|x| line.is_filled(f(*x))).collect();
    assert_eq!(fresh, reused);
    line.reset();
    assert!(line.is_filled(f(5.0)));
    assert_eq!(fresh, vec![true, false, false, true, true, false, true, false, true]);
}

#[test]
fn scanline_outside_box_is_empty() {
    let shape = square();
    assert!(shape.scanline_intersections(f(-1.0)).is_empty());
    assert!(shape.scanline_intersections(f(11.0)).is_empty());
    assert_eq!(sorted_values(&shape.scanline_intersections(f(5.0))), vec![0.0, 10.0]);
}

#[test]
fn depressed_cubic_repeated_root_is_a_root() {
    // x^3 - 12x - 16 = (x - 4)(x + 2)^2: zero discriminant
    let roots = sorted_values(&solve_cubic_depressed(f(-12.0), f(-16.0)));
    assert_eq!(roots, vec![-2.0, 4.0]);
    for r in roots.iter() {
        assert!(eval_poly(&[1.0, 0.0, -12.0, -16.0], *r).abs() < 1e-9);
    }
    // through the general solver with no quadratic term
    let roots = sorted_values(&solve_cubic(f(1.0), f(0.0), f(-12.0), f(-16.0)));
    assert_eq!(roots, vec![-2.0, 4.0]);
}

#[test]
fn normalized_cubic_keeps_double_root_below_zero_sum() {
    // x^3 - 3x^2 + 4 = (x - 2)^2 (x + 1): s = t = -1
    let roots = sorted_values(&solve_cubic_normalized(f(-3.0), f(0.0), f(4.0)));
    assert_eq!(roots.len(), 2);
    assert!(close(roots[0], -1.0, 1e-9));
    assert!(close(roots[1], 2.0, 1e-9));
}

#[test]
fn curve_closest_point_lies_on_curve() {
    let cubic = EdgeSegment::Cubic {
        start: Point2::new(f(0.0), f(0.0)),
        ctrl0: Point2::new(f(0.0), f(4.0)),
        ctrl1: Point2::new(f(4.0), f(4.0)),
        end: Point2::new(f(4.0), f(0.0)),
    };
    let (d, p) = cubic.closest_point(Point2::new(f(2.0), f(5.0)), f(0.0001));
    // the curve's top is (2, 3)
    assert!(close(p.x.0, 2.0, 0.01));
    assert!(close(p.y.0, 3.0, 0.01));
    assert!(close(d.0, 2.0, 0.01));
}

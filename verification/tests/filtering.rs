use recursive_gaussian::{ring_chunk, Blur, BlurPlan, RecursiveGaussian, RowOp, RowStep};

struct Kernel {
    radius: usize,
    gain: [f32; 3],
    feedback: [f32; 3],
}

fn derive(sigma: f64) -> Kernel {
    let radius = (3.2795f64 * sigma + 0.2546).trunc();
    let pi_div_2r = std::f64::consts::PI / (2.0 * radius);
    let omega = [pi_div_2r, 3.0 * pi_div_2r, 5.0 * pi_div_2r];
    let p_1 = 1.0 / (0.5 * omega[0]).tan();
    let p_3 = -1.0 / (0.5 * omega[1]).tan();
    let p_5 = 1.0 / (0.5 * omega[2]).tan();
    let r_1 = p_1 * p_1 / omega[0].sin();
    let r_3 = -p_3 * p_3 / omega[1].sin();
    let r_5 = p_5 * p_5 / omega[2].sin();
    let mut rho = [0.0f64; 3];
    for i in 0..3 {
        rho[i] = (-0.5 * sigma * sigma * omega[i] * omega[i]).exp() / radius;
    }
    let d_13 = p_1 * r_3 - r_1 * p_3;
    let d_35 = p_3 * r_5 - r_3 * p_5;
    let d_51 = p_5 * r_1 - r_5 * p_1;
    let zeta_15 = d_35 / d_13;
    let zeta_35 = d_51 / d_13;
    let a = nalgebra::Matrix3::new(p_1, p_3, p_5, r_1, r_3, r_5, zeta_15, zeta_35, 1.0);
    let gamma = nalgebra::Vector3::new(
        1.0,
        radius * radius - sigma * sigma,
        zeta_15 * rho[0] + zeta_35 * rho[1] + rho[2],
    );
    let beta = a.try_inverse().expect("the system has a solution") * gamma;
    let weight_sum = beta[0] * p_1 + beta[1] * p_3 + beta[2] * p_5;
    assert!((weight_sum - 1.0).abs() < 1e-12);
    let mut gain = [0f32; 3];
    let mut feedback = [0f32; 3];
    for i in 0..3 {
        gain[i] = (-beta[i] * (omega[i] * (radius + 1.0)).cos()) as f32;
        feedback[i] = (-2.0 * omega[i].cos()) as f32;
    }
    Kernel { radius: radius as usize, gain, feedback }
}

fn expand(ops: &[RowOp]) -> Vec<RowStep> {
    let mut steps = Vec::new();
    for op in ops {
        match *op {
            RowOp::Single(step) => steps.push(step),
            RowOp::Quad { left, right, out } => {
                for lane in 0..4 {
                    steps.push(RowStep {
                        left: Some(left + lane),
                        right: Some(right + lane),
                        out: Some(out + lane),
                    });
                }
            }
        }
    }
    steps
}

fn run(plan: &BlurPlan, kernel: &Kernel, plane: &[f32]) -> Vec<f32> {
    let (width, height) = (plan.width(), plan.height());
    let mut temp = vec![0f32; width * height];
    let steps = expand(plan.horizontal());
    for row in 0..height {
        let base = plan.row_start(row).unwrap();
        let mut prev = [0f32; 3];
        let mut prev2 = [0f32; 3];
        for step in &steps {
            let sum = step.left.map_or(0.0, |i| plane[base + i])
                + step.right.map_or(0.0, |i| plane[base + i]);
            let mut total = 0f32;
            for k in 0..3 {
                let y = kernel.gain[k] * sum - kernel.feedback[k] * prev[k] - prev2[k];
                prev2[k] = prev[k];
                prev[k] = y;
                total += y;
            }
            if let Some(o) = step.out {
                temp[base + o] = total;
            }
        }
    }
    let mut out = vec![0f32; width * height];
    for index in 0..plan.strips().len() {
        let mut ring = [0f32; 192];
        for planned in plan.vertical_strip(index).unwrap() {
            for a in &planned.accesses {
                for lane in 0..a.lanes {
                    let sum = a.top.map_or(0.0, |o| temp[o + lane])
                        + a.bottom.map_or(0.0, |o| temp[o + lane]);
                    let mut total = 0f32;
                    for k in 0..3 {
                        let chunk = ring_chunk(k);
                        let y = kernel.gain[k] * sum
                            - kernel.feedback[k] * ring[chunk + a.previous + lane]
                            - ring[chunk + a.before + lane];
                        ring[chunk + a.current + lane] = y;
                        total += y;
                    }
                    if let Some(o) = a.store {
                        out[o + lane] = total;
                    }
                }
            }
        }
    }
    out
}

fn blur(width: usize, height: usize, sigma: f64, plane: &[f32]) -> Vec<f32> {
    let kernel = derive(sigma);
    let engine = Blur::new(width, height, RecursiveGaussian::new(kernel.radius)).unwrap();
    let plan = engine.blur([plane.len(), plane.len(), plane.len()]).unwrap();
    run(&plan, &kernel, plane)
}

fn direct_gaussian(width: usize, height: usize, sigma: f64, radius: usize, plane: &[f32]) -> Vec<f32> {
    let r = radius as i64;
    let mut weights = Vec::new();
    for k in -r..=r {
        weights.push((-0.5 * (k * k) as f64 / (sigma * sigma)).exp());
    }
    let norm: f64 = weights.iter().sum();
    let mut out = vec![0f32; width * height];
    for y in 0..height as i64 {
        for x in 0..width as i64 {
            let mut acc = 0f64;
            for dy in -r..=r {
                for dx in -r..=r {
                    let (sy, sx) = (y + dy, x + dx);
                    if 0 <= sy && sy < height as i64 && 0 <= sx && sx < width as i64 {
                        let w = weights[(dy + r) as usize] * weights[(dx + r) as usize];
                        acc += w * plane[sy as usize * width + sx as usize] as f64;
                    }
                }
            }
            out[y as usize * width + x as usize] = (acc / (norm * norm)) as f32;
        }
    }
    out
}

#[test]
fn constant_plane_stays_constant_inside() {
    let (width, height) = (64usize, 48usize);
    let c = 2.5f32;
    let out = blur(width, height, 1.5, &vec![c; width * height]);
    let radius = derive(1.5).radius;
    for y in radius..height - radius {
        for x in radius..width - radius {
            let v = out[y * width + x];
            assert!((v - c).abs() <= 1e-4 * c);
        }
    }
    // Zero padding darkens the border.
    assert!(out[0] < c);
    assert!(out[width * height - 1] < c);
}

#[test]
fn impulse_at_the_centre_spreads_symmetrically() {
    let n = 41usize;
    let mut plane = vec![0f32; n * n];
    plane[20 * n + 20] = 1.0;
    let out = blur(n, n, 1.5, &plane);
    for y in 0..n {
        for x in 0..n {
            let v = out[y * n + x];
            assert!((v - out[y * n + (n - 1 - x)]).abs() <= 1e-6);
            assert!((v - out[(n - 1 - y) * n + x]).abs() <= 1e-6);
            assert!((v - out[x * n + y]).abs() <= 1e-6);
        }
    }
    let total: f32 = out.iter().sum();
    assert!(total <= 1.0 + 1e-5);
    assert!(total >= 1.0 - 1e-4);
    let energy: f32 = out.iter().map(|v| v * v).sum();
    assert!(energy <= 1.0);
}

#[test]
fn unit_gain_holds_for_narrow_and_wide_kernels() {
    for sigma in [0.75f64, 1.0, 1.5, 2.0, 3.0, 5.0] {
        let radius = derive(sigma).radius;
        let n = 4 * radius + 9;
        let c = 0.75f32;
        let out = blur(n, n, sigma, &vec![c; n * n]);
        for y in radius..n - radius {
            for x in radius..n - radius {
                assert!((out[y * n + x] - c).abs() <= 1e-4 * c);
            }
        }
    }
}

#[test]
fn impulse_in_a_plane_of_eight_by_eight() {
    let mut plane = vec![0f32; 64];
    plane[4 * 8 + 4] = 1.0;
    let out = blur(8, 8, 1.5, &plane);
    assert!(out.iter().all(|v| v.is_finite()));
    let at = |y: usize, x: usize| out[y * 8 + x];
    for y in 0..8usize {
        for x in 0..8usize {
            assert!(at(y, x) <= at(4, 4));
            // Mirror images about the centre, where both lie inside the plane.
            if 1 <= x {
                assert!((at(y, x) - at(y, 8 - x)).abs() <= 1e-6);
            }
            if 1 <= y {
                assert!((at(y, x) - at(8 - y, x)).abs() <= 1e-6);
            }
        }
    }
    for d in 0..3usize {
        assert!(at(4, 4 + d) > at(4, 4 + d + 1));
        assert!(at(4 + d, 4) > at(4 + d + 1, 4));
        assert!(at(4, 4 - d) > at(4, 4 - d - 1));
        assert!(at(4 - d, 4) > at(4 - d - 1, 4));
    }
    assert!(at(4, 0) < at(4, 1));
    assert!(at(0, 4) < at(1, 4));
    let total: f32 = out.iter().sum();
    assert!(total <= 1.0);
    assert!(total > 0.9);
}

#[test]
fn recursion_follows_the_direct_convolution() {
    let (width, height) = (24usize, 20usize);
    let mut plane = vec![0f32; width * height];
    for y in 0..height {
        for x in 0..width {
            plane[y * width + x] = ((x * 7 + y * 13) % 17) as f32 / 16.0;
        }
    }
    let sigma = 1.5f64;
    let radius = derive(sigma).radius;
    let fast = blur(width, height, sigma, &plane);
    let direct = direct_gaussian(width, height, sigma, radius, &plane);
    let peak = direct.iter().fold(0f32, |m, v| m.max(v.abs()));
    let mut worst = 0f32;
    for i in 0..width * height {
        worst = worst.max((fast[i] - direct[i]).abs());
    }
    assert!(worst < 0.01 * peak);
}

#[test]
fn resized_engine_filters_as_a_fresh_one() {
    let kernel = derive(1.5);
    let (w, h) = (12usize, 9usize);
    let mut plane = vec![0f32; w * h];
    for i in 0..w * h {
        plane[i] = ((i * 5) % 11) as f32;
    }
    let mut resized = Blur::new(64, 48, RecursiveGaussian::new(kernel.radius)).unwrap();
    resized.shrink_to(w, h).unwrap();
    let fresh = Blur::new(w, h, RecursiveGaussian::new(kernel.radius)).unwrap();
    let lens = [w * h, w * h, w * h];
    let a = run(&resized.blur(lens).unwrap(), &kernel, &plane);
    let b = run(&fresh.blur(lens).unwrap(), &kernel, &plane);
    assert_eq!(a, b);
}

use recursive_gaussian::{shift_left_lanes, RecursiveGaussian, RowOp, Strip};

const GAIN: [i64; 3] = [3, -2, 5];
const FEEDBACK: [i64; 3] = [2, -1, 1];

fn mul_prev(d: i64) -> [i64; 4] {
    [-d, d * d - 1, -(d * d * d) + 2 * d, d * d * d * d - 3 * d * d + 1]
}

fn mul_prev2(d: i64) -> [i64; 4] {
    [-1, d, -(d * d) + 1, d * d * d - 2 * d]
}

fn mul_in(n: i64, d: i64) -> [i64; 4] {
    [n, -d * n, d * d * n - n, -(d * d * d) * n + 2 * d * n]
}

fn tap(line: &[i64], i: i64) -> i64 {
    if 0 <= i && i < line.len() as i64 {
        line[i as usize]
    } else {
        0
    }
}

/// The raw recurrence along one line, one position at a time.
fn serial_line(radius: usize, line: &[i64]) -> Vec<i64> {
    let r = radius as i64;
    let mut out = vec![0i64; line.len()];
    let mut prev = [0i64; 3];
    let mut prev2 = [0i64; 3];
    let start = if r >= 1 { 1 - r } else { 0 };
    let mut n = start;
    while n < line.len() as i64 {
        let x = tap(line, n - r - 1) + tap(line, n + r - 1);
        let mut total = 0;
        for k in 0..3 {
            let y = GAIN[k] * x - FEEDBACK[k] * prev[k] - prev2[k];
            prev2[k] = prev[k];
            prev[k] = y;
            total += y;
        }
        if n >= 0 {
            out[n as usize] = total;
        }
        n += 1;
    }
    out
}

/// One row by its plan, with every block evaluated in closed form.
fn blocked_row(radius: usize, row: &[i64]) -> Vec<i64> {
    let mut out = vec![0i64; row.len()];
    let mut prev = [0i64; 3];
    let mut prev2 = [0i64; 3];
    for op in RecursiveGaussian::new(radius).fast_gaussian_horizontal(row.len()) {
        match op {
            RowOp::Single(step) => {
                let x = step.left.map_or(0, |i| row[i]) + step.right.map_or(0, |i| row[i]);
                let mut total = 0;
                for k in 0..3 {
                    let y = GAIN[k] * x - FEEDBACK[k] * prev[k] - prev2[k];
                    prev2[k] = prev[k];
                    prev[k] = y;
                    total += y;
                }
                if let Some(o) = step.out {
                    out[o] = total;
                }
            }
            RowOp::Quad { left, right, out: first } => {
                let mut x = [0i64; 4];
                for lane in 0..4 {
                    x[lane] = row[left + lane] + row[right + lane];
                }
                let mut total = [0i64; 4];
                for k in 0..3 {
                    let weights = mul_in(GAIN[k], FEEDBACK[k]);
                    let mut y = [0i64; 4];
                    for lane in 0..4 {
                        y[lane] = mul_prev(FEEDBACK[k])[lane] * prev[k]
                            + mul_prev2(FEEDBACK[k])[lane] * prev2[k];
                        for input in 0..4 {
                            if let Some(source) = shift_left_lanes(input, lane) {
                                y[lane] += weights[source] * x[input];
                            }
                        }
                        total[lane] += y[lane];
                    }
                    prev2[k] = y[2];
                    prev[k] = y[3];
                }
                out[first..first + 4].copy_from_slice(&total);
            }
        }
    }
    out
}

fn pattern(len: usize, seed: usize) -> Vec<i64> {
    (0..len).map(|i| ((i * 31 + seed * 17) % 13) as i64 - 6).collect()
}

#[test]
fn raw_recurrence_of_a_short_row() {
    // Radius 1: y[n] = gain * (x[n - 2] + x[n]) - feedback * y[n - 1] - y[n - 2].
    let row = [1i64, 0, 0, 2];
    let mut expected = [0i64; 4];
    for k in 0..3 {
        let (g, d) = (GAIN[k], FEEDBACK[k]);
        let y0 = g * 1;
        let y1 = -d * y0;
        let y2 = g * 1 - d * y1 - y0;
        let y3 = g * 2 - d * y2 - y1;
        expected[0] += y0;
        expected[1] += y1;
        expected[2] += y2;
        expected[3] += y3;
    }
    assert_eq!(expected, [6, -13, 15, -6]);
    assert_eq!(serial_line(1, &row), expected);
    assert_eq!(blocked_row(1, &row), expected);
}

#[test]
fn blocked_row_equals_the_raw_recurrence() {
    for radius in 0..7usize {
        for width in 0..40usize {
            let row = pattern(width, radius);
            assert_eq!(blocked_row(radius, &row), serial_line(radius, &row));
        }
    }
}

/// One strip by its plan, with the state of every column in the ring.
fn strip_columns(radius: usize, strip: &Strip, width: usize, height: usize, plane: &[i64]) -> Vec<i64> {
    let mut out = vec![0i64; width * height];
    let mut ring = [[0i64; 64]; 3];
    for planned in RecursiveGaussian::new(radius).vertical_strip(strip, width, height) {
        for a in &planned.accesses {
            for lane in 0..a.lanes {
                let x = a.top.map_or(0, |o| plane[o + lane]) + a.bottom.map_or(0, |o| plane[o + lane]);
                let mut total = 0;
                for k in 0..3 {
                    let y = GAIN[k] * x
                        - FEEDBACK[k] * ring[k][a.previous + lane]
                        - ring[k][a.before + lane];
                    ring[k][a.current + lane] = y;
                    total += y;
                }
                if let Some(o) = a.store {
                    out[o + lane] = total;
                }
            }
        }
    }
    out
}

#[test]
fn strip_equals_the_raw_recurrence_down_each_column() {
    for radius in 0..4usize {
        for (width, height) in [(1usize, 1usize), (5, 9), (16, 6), (22, 12), (38, 5)] {
            let plane = pattern(width * height, radius + width);
            let mut out = vec![0i64; width * height];
            for strip in RecursiveGaussian::new(radius).fast_gaussian_vertical(width) {
                let part = strip_columns(radius, &strip, width, height, &plane);
                for y in 0..height {
                    for x in strip.x..strip.x + strip.lanes {
                        out[y * width + x] = part[y * width + x];
                    }
                }
            }
            for x in 0..width {
                let column: Vec<i64> = (0..height).map(|y| plane[y * width + x]).collect();
                let expected = serial_line(radius, &column);
                for y in 0..height {
                    assert_eq!(out[y * width + x], expected[y]);
                }
            }
        }
    }
}

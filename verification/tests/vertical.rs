use recursive_gaussian::{
    plane_offset, ring_chunk, vertical_block, BlockStep, Phase, RecursiveGaussian, Strip,
    VectorAccess, VertBlockInput, VertBlockOutput, VertStep,
};

fn strip(x: usize, vectors: usize, lanes: usize) -> Strip {
    Strip { x, vectors, lanes }
}

#[test]
fn strips_of_a_plane_forty_wide() {
    let tiles = RecursiveGaussian::new(5).fast_gaussian_vertical(40);
    assert_eq!(
        tiles,
        vec![strip(0, 4, 16), strip(16, 4, 16), strip(32, 1, 4), strip(36, 1, 4)]
    );
}

#[test]
fn last_strip_is_cut_at_the_last_column() {
    let tiles = RecursiveGaussian::new(5).fast_gaussian_vertical(38);
    assert_eq!(
        tiles,
        vec![strip(0, 4, 16), strip(16, 4, 16), strip(32, 1, 4), strip(36, 1, 2)]
    );
    assert_eq!(RecursiveGaussian::new(5).fast_gaussian_vertical(3), vec![strip(0, 1, 3)]);
}

#[test]
fn strips_of_narrow_and_empty_planes() {
    let kernel = RecursiveGaussian::new(5);
    assert!(kernel.fast_gaussian_vertical(0).is_empty());
    assert_eq!(kernel.fast_gaussian_vertical(1), vec![strip(0, 1, 1)]);
    assert_eq!(kernel.fast_gaussian_vertical(15), vec![
        strip(0, 1, 4),
        strip(4, 1, 4),
        strip(8, 1, 4),
        strip(12, 1, 3),
    ]);
    assert_eq!(kernel.fast_gaussian_vertical(16), vec![strip(0, 4, 16)]);
    assert_eq!(kernel.fast_gaussian_vertical(17), vec![strip(0, 4, 16), strip(16, 1, 1)]);
}

#[test]
fn strips_tile_the_columns() {
    for width in 0..200usize {
        let tiles = RecursiveGaussian::new(3).fast_gaussian_vertical(width);
        let mut x = 0;
        for tile in &tiles {
            assert_eq!(tile.x, x);
            assert!(tile.lanes >= 1);
            assert!(tile.vectors == 1 || tile.vectors == 4);
            assert!(tile.lanes <= 4 * tile.vectors);
            assert!(tile.lanes > 4 * (tile.vectors - 1));
            x += tile.lanes;
        }
        assert_eq!(x, width);
        assert_eq!(tiles.len(), width / 16 + (width % 16 + 3) / 4);
    }
}

#[test]
fn plane_offset_is_row_major() {
    assert_eq!(plane_offset(0, 0, 8, 8), 0);
    assert_eq!(plane_offset(0, 7, 8, 8), 7);
    assert_eq!(plane_offset(3, 4, 8, 8), 28);
    assert_eq!(plane_offset(7, 7, 8, 8), 63);
    assert_eq!(plane_offset(2, 1, 5, 3), 11);
}

fn step(
    phase: Phase,
    input: VertBlockInput,
    output: VertBlockOutput,
    prefetch: Option<(usize, usize)>,
) -> VertStep {
    VertStep { phase, input, output, prefetch }
}

#[test]
fn strip_of_eight_rows_has_no_interior() {
    let steps = RecursiveGaussian::new(5).strip_steps(4, 8, 8);
    let single = VertBlockInput::SingleInput;
    let two = VertBlockInput::TwoInputs;
    let expected = vec![
        step(Phase::Warmup, single(Some(4)), VertBlockOutput::Discard, None),
        step(Phase::Warmup, single(Some(12)), VertBlockOutput::Discard, None),
        step(Phase::Warmup, single(Some(20)), VertBlockOutput::Discard, None),
        step(Phase::Warmup, single(Some(28)), VertBlockOutput::Discard, None),
        step(Phase::TopBorder, single(Some(36)), VertBlockOutput::Store(4), None),
        step(Phase::TopBorder, single(Some(44)), VertBlockOutput::Store(12), None),
        step(Phase::TopBorder, single(Some(52)), VertBlockOutput::Store(20), None),
        step(Phase::TopBorder, single(Some(60)), VertBlockOutput::Store(28), None),
        step(Phase::TopBorder, single(None), VertBlockOutput::Store(36), None),
        step(Phase::TopBorder, single(None), VertBlockOutput::Store(44), None),
        step(Phase::BottomBorder, two(4, None), VertBlockOutput::Store(52), None),
        step(Phase::BottomBorder, two(12, None), VertBlockOutput::Store(60), None),
    ];
    assert_eq!(steps, expected);
}

#[test]
fn strip_of_forty_rows_has_all_four_phases() {
    let steps = RecursiveGaussian::new(5).strip_steps(0, 4, 40);
    assert_eq!(steps.len(), 44);
    let at = |n: i64| steps[(n + 4) as usize];
    assert_eq!(
        at(-4),
        step(Phase::Warmup, VertBlockInput::SingleInput(Some(0)), VertBlockOutput::Discard, None)
    );
    assert_eq!(
        at(5),
        step(
            Phase::TopBorder,
            VertBlockInput::SingleInput(Some(36)),
            VertBlockOutput::Store(20),
            None
        )
    );
    assert_eq!(
        at(6),
        step(
            Phase::Interior,
            VertBlockInput::TwoInputs(0, Some(40)),
            VertBlockOutput::Store(24),
            Some((32, 72))
        )
    );
    assert_eq!(
        at(27),
        step(
            Phase::Interior,
            VertBlockInput::TwoInputs(84, Some(124)),
            VertBlockOutput::Store(108),
            Some((116, 156))
        )
    );
    assert_eq!(
        at(28),
        step(
            Phase::BottomBorder,
            VertBlockInput::TwoInputs(88, Some(128)),
            VertBlockOutput::Store(112),
            None
        )
    );
    assert_eq!(
        at(35),
        step(
            Phase::BottomBorder,
            VertBlockInput::TwoInputs(116, Some(156)),
            VertBlockOutput::Store(140),
            None
        )
    );
    assert_eq!(
        at(36),
        step(
            Phase::BottomBorder,
            VertBlockInput::TwoInputs(120, None),
            VertBlockOutput::Store(144),
            None
        )
    );
    assert_eq!(
        at(39),
        step(
            Phase::BottomBorder,
            VertBlockInput::TwoInputs(132, None),
            VertBlockOutput::Store(156),
            None
        )
    );
    let interior = steps.iter().filter(|s| s.phase == Phase::Interior).count();
    assert_eq!(interior, 22);
}

#[test]
fn strip_shorter_than_the_radius_never_has_an_upper_tap() {
    let steps = RecursiveGaussian::new(5).strip_steps(1, 2, 3);
    assert_eq!(steps.len(), 7);
    for s in &steps {
        assert!(matches!(s.input, VertBlockInput::SingleInput(_)));
    }
    assert_eq!(steps[0].input, VertBlockInput::SingleInput(Some(1)));
    assert_eq!(steps[2].input, VertBlockInput::SingleInput(Some(5)));
    assert_eq!(steps[3].input, VertBlockInput::SingleInput(None));
    assert_eq!(steps[4].output, VertBlockOutput::Store(1));
    assert_eq!(steps[6].output, VertBlockOutput::Store(5));
    assert_eq!(steps[6].phase, Phase::TopBorder);
}

#[test]
fn strip_of_no_rows_only_warms_up() {
    let steps = RecursiveGaussian::new(3).strip_steps(0, 4, 0);
    assert_eq!(steps.len(), 2);
    for s in &steps {
        assert_eq!(
            *s,
            step(Phase::Warmup, VertBlockInput::SingleInput(None), VertBlockOutput::Discard, None)
        );
    }
}

#[test]
fn strip_steps_match_the_rows_they_stand_for() {
    for radius in 0..8usize {
        for height in 0..40usize {
            let width = 6usize;
            let x = 4usize;
            let steps = RecursiveGaussian::new(radius).strip_steps(x, width, height);
            let r = radius as i64;
            let h = height as i64;
            let start = if r >= 1 { 1 - r } else { 0 };
            assert_eq!(steps.len() as i64, h - start);
            for (k, s) in steps.iter().enumerate() {
                let n = start + k as i64;
                let row = |i: i64| {
                    if 0 <= i && i < h {
                        Some(i as usize * width + x)
                    } else {
                        None
                    }
                };
                let input = match row(n - r - 1) {
                    Some(t) => VertBlockInput::TwoInputs(t, row(n + r - 1)),
                    None => VertBlockInput::SingleInput(row(n + r - 1)),
                };
                let output = match row(n) {
                    Some(o) => VertBlockOutput::Store(o),
                    None => VertBlockOutput::Discard,
                };
                assert_eq!(s.input, input);
                assert_eq!(s.output, output);
                let phase = if n < 0 {
                    Phase::Warmup
                } else if n <= r {
                    Phase::TopBorder
                } else if n + r + 7 < h {
                    Phase::Interior
                } else {
                    Phase::BottomBorder
                };
                assert_eq!(s.phase, phase);
                assert_eq!(s.prefetch.is_some(), phase == Phase::Interior);
                if let Some((t, b)) = s.prefetch {
                    assert_eq!(Some(t), row(n - r - 1 + 8));
                    assert_eq!(Some(b), row(n + r - 1 + 8));
                }
            }
        }
    }
}

#[test]
fn get_moves_both_taps() {
    assert_eq!(VertBlockInput::SingleInput(Some(40)).get(0), (None, Some(40)));
    assert_eq!(VertBlockInput::SingleInput(Some(40)).get(8), (None, Some(48)));
    assert_eq!(VertBlockInput::SingleInput(None).get(8), (None, None));
    assert_eq!(VertBlockInput::TwoInputs(3, Some(40)).get(4), (Some(7), Some(44)));
    assert_eq!(VertBlockInput::TwoInputs(3, None).get(12), (Some(15), None));
}

#[test]
fn write_moves_the_place() {
    assert_eq!(VertBlockOutput::Discard.write(0), None);
    assert_eq!(VertBlockOutput::Discard.write(12), None);
    assert_eq!(VertBlockOutput::Store(24).write(0), Some(24));
    assert_eq!(VertBlockOutput::Store(24).write(12), Some(36));
}

#[test]
fn ring_chunks_follow_each_other() {
    assert_eq!(ring_chunk(0), 0);
    assert_eq!(ring_chunk(1), 64);
    assert_eq!(ring_chunk(2), 128);
}

#[test]
fn block_of_a_full_strip() {
    let tile = strip(0, 4, 16);
    let input = VertBlockInput::TwoInputs(100, Some(200));
    let output = VertBlockOutput::Store(300);
    let mut ctr = 0usize;
    let accesses = vertical_block(&tile, &input, &mut ctr, &output);
    assert_eq!(ctr, 1);
    assert_eq!(accesses.len(), 4);
    for (v, a) in accesses.iter().enumerate() {
        assert_eq!(
            *a,
            VectorAccess {
                top: Some(100 + 4 * v),
                bottom: Some(200 + 4 * v),
                store: Some(300 + 4 * v),
                lanes: 4,
                current: 16 + 4 * v,
                previous: 4 * v,
                before: 48 + 4 * v,
            }
        );
    }
}

#[test]
fn block_of_a_cut_strip() {
    let tile = strip(36, 1, 2);
    let input = VertBlockInput::SingleInput(None);
    let mut ctr = 6usize;
    let accesses = vertical_block(&tile, &input, &mut ctr, &VertBlockOutput::Discard);
    assert_eq!(ctr, 7);
    assert_eq!(
        accesses,
        vec![VectorAccess {
            top: None,
            bottom: None,
            store: None,
            lanes: 2,
            current: 48,
            previous: 32,
            before: 16,
        }]
    );
}

#[test]
fn ring_turns_by_one_slot_each_step() {
    let tile = strip(0, 4, 16);
    let input = VertBlockInput::SingleInput(Some(0));
    let output = VertBlockOutput::Discard;
    let mut ctr = 0usize;
    let mut last: Option<Vec<VectorAccess>> = None;
    let mut before_last: Option<Vec<VectorAccess>> = None;
    for step in 1..=13usize {
        let accesses = vertical_block(&tile, &input, &mut ctr, &output);
        assert_eq!(ctr, step);
        for (v, a) in accesses.iter().enumerate() {
            assert_eq!(a.current, 16 * (step % 4) + 4 * v);
            assert_ne!(a.current, a.previous);
            assert_ne!(a.current, a.before);
            assert_ne!(a.previous, a.before);
            assert!(a.current + 4 <= 64);
            assert!(a.previous + 4 <= 64);
            assert!(a.before + 4 <= 64);
            if let Some(prev) = &last {
                assert_eq!(a.previous, prev[v].current);
            }
            if let Some(prev2) = &before_last {
                assert_eq!(a.before, prev2[v].current);
            }
        }
        before_last = last;
        last = Some(accesses);
    }
}

#[test]
fn vertical_strip_resolves_every_step() {
    let kernel = RecursiveGaussian::new(5);
    let tile = strip(16, 1, 3);
    let (width, height) = (19usize, 30usize);
    let plan: Vec<BlockStep> = kernel.vertical_strip(&tile, width, height);
    let steps = kernel.strip_steps(16, width, height);
    assert_eq!(plan.len(), steps.len());
    let mut ctr = 0usize;
    for (k, planned) in plan.iter().enumerate() {
        assert_eq!(planned.step, steps[k]);
        let accesses = vertical_block(&tile, &steps[k].input, &mut ctr, &steps[k].output);
        assert_eq!(ctr, k + 1);
        assert_eq!(planned.accesses, accesses);
    }
}

#[test]
fn vertical_strip_stays_inside_the_plane() {
    let kernel = RecursiveGaussian::new(5);
    for (width, height) in [(1usize, 1usize), (7, 3), (16, 16), (38, 25), (40, 9)] {
        let mut written = vec![0u32; width * height];
        for tile in kernel.fast_gaussian_vertical(width) {
            for planned in kernel.vertical_strip(&tile, width, height) {
                for a in &planned.accesses {
                    for o in [a.top, a.bottom, a.store].into_iter().flatten() {
                        assert!(o + a.lanes <= width * height);
                    }
                    if let Some(o) = a.store {
                        for lane in 0..a.lanes {
                            written[o + lane] += 1;
                        }
                    }
                }
            }
        }
        assert!(written.iter().all(|&count| count == 1));
    }
}

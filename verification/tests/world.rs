use chaos_game::rules::{Choice, DefaultChoice};
use chaos_game::world::{
    paint_background, push_history, Control, Delivery, Handoff, Image, Plan, Schedule, State,
    Step, WorkerState,
};
use chaos_game::{BACKGROUND_BLUE, BACKGROUND_GREEN, BACKGROUND_RED, OPAQUE};

const BG: [u8; 4] = [11, 11, 11, 255];

#[test]
fn background_is_the_display_colour_of_the_linear_one() {
    let byte = (0.001f64.powf(1.0 / 2.2) * 255.0) as u8;
    assert_eq!(BACKGROUND_RED, byte);
    assert_eq!(BACKGROUND_GREEN, byte);
    assert_eq!(BACKGROUND_BLUE, byte);
    assert_eq!(OPAQUE, 255);
}

#[test]
fn empty_image_is_background() {
    let image = Image::empty(3, 2);
    assert_eq!(image.width, 3);
    assert_eq!(image.height, 2);
    assert_eq!(image.steps, 0);
    assert_eq!(image.pixels.len(), 24);
    for pixel in image.pixels.chunks_exact(4) {
        assert_eq!(pixel, BG);
    }
    assert!(Image::empty(0, 5).pixels.is_empty());
}

#[test]
fn paint_background_leaves_the_tail() {
    let mut frame = vec![1u8; 10];
    paint_background(&mut frame);
    assert_eq!(frame, vec![11, 11, 11, 255, 11, 11, 11, 255, 1, 1]);
    let mut short = vec![9u8; 3];
    paint_background(&mut short);
    assert_eq!(short, vec![9, 9, 9]);
}

#[test]
fn fresh_image_draws_background() {
    let image = Image::empty(4, 4);
    let mut frame = vec![0u8; 64];
    image.draw(4, 4, &mut frame);
    for pixel in frame.chunks_exact(4) {
        assert_eq!(pixel, BG);
    }
    let mut other = vec![0u8; 36];
    image.draw(3, 3, &mut other);
    for pixel in other.chunks_exact(4) {
        assert_eq!(pixel, BG);
    }
}

#[test]
fn image_draw_copies_where_sizes_agree() {
    let image = Image { pixels: (0u8..16).collect(), steps: 5, width: 2, height: 2 };
    let mut frame = vec![0u8; 16];
    image.draw(2, 2, &mut frame);
    assert_eq!(frame, (0u8..16).collect::<Vec<u8>>());

    let mut stale = vec![7u8; 16];
    image.draw(4, 1, &mut stale);
    assert_eq!(stale, [BG, BG, BG, BG].concat());

    let mut long = vec![7u8; 18];
    image.draw(2, 2, &mut long);
    assert_eq!(&long[..16], [BG, BG, BG, BG].concat().as_slice());
    assert_eq!(&long[16..], &[7, 7]);
}

#[test]
fn state_empty_and_new() {
    let state = State::empty(3, 2, 0.5f64);
    assert_eq!(state.pixels, vec![0.5; 6]);
    assert_eq!((state.steps, state.width, state.height), (0, 3, 2));
    let made = State::new(vec![1u32, 2, 3, 4], 9, 2, 2);
    assert_eq!(made.pixels, vec![1, 2, 3, 4]);
    assert_eq!((made.steps, made.width, made.height), (9, 2, 2));
}

#[test]
fn combine_adds_pixels_and_steps() {
    let mut state = State::new(vec![1.0f64, 2.0, 3.0, 4.0], 10, 2, 2);
    let other = State::new(vec![0.5f64, 0.25, 0.0, 1.0], 5, 2, 2);
    assert!(state.combine(other, &|mine: f64, theirs: f64| mine + theirs));
    assert_eq!(state.pixels, vec![1.5, 2.25, 3.0, 5.0]);
    assert_eq!(state.steps, 15);
}

#[test]
fn combine_hands_over_this_grid_first() {
    let mut state = State::new(vec![10i64, 20], 0, 2, 1);
    let other = State::new(vec![1i64, 2], 0, 2, 1);
    assert!(state.combine(other, &|mine: i64, theirs: i64| mine - theirs));
    assert_eq!(state.pixels, vec![9, 18]);
}

#[test]
fn combine_refuses_another_size() {
    let mut state = State::new(vec![1.0f64, 2.0, 3.0, 4.0], 10, 2, 2);
    let other = State::new(vec![9.0f64, 9.0, 9.0, 9.0], 5, 4, 1);
    assert!(!state.combine(other, &|mine: f64, theirs: f64| mine + theirs));
    assert_eq!(state.pixels, vec![1.0, 2.0, 3.0, 4.0]);
    assert_eq!(state.steps, 10);
}

#[test]
fn merge_is_commutative_and_associative() {
    let add = |mine: f64, theirs: f64| mine + theirs;
    let parts: Vec<Vec<f64>> = vec![
        vec![0.1, 0.2, 0.3, 0.4],
        vec![1.5, 0.0, 2.5, 1e-3],
        vec![3.25, 7.0, 0.125, 9.0],
    ];
    let orders: [[usize; 3]; 6] =
        [[0, 1, 2], [0, 2, 1], [1, 0, 2], [1, 2, 0], [2, 0, 1], [2, 1, 0]];
    let mut results: Vec<Vec<f64>> = Vec::new();
    for order in orders {
        let mut state = State::empty(2, 2, 0.0f64);
        for i in order {
            assert!(state.combine(State::new(parts[i].clone(), 1, 2, 2), &add));
        }
        assert_eq!(state.steps, 3);
        results.push(state.pixels);
    }
    let mut grouped = State::new(parts[1].clone(), 1, 2, 2);
    assert!(grouped.combine(State::new(parts[2].clone(), 1, 2, 2), &add));
    let mut state = State::new(parts[0].clone(), 1, 2, 2);
    assert!(state.combine(grouped, &add));
    results.push(state.pixels);
    for result in &results {
        for (a, b) in result.iter().zip(results[0].iter()) {
            assert!((a - b).abs() < 1e-9);
        }
    }
}

#[test]
fn combine_all_folds_a_burst() {
    let add = |mine: u64, theirs: u64| mine + theirs;
    let mut state = State::empty(2, 1, 0u64);
    let burst = vec![
        State::new(vec![1, 2], 10, 2, 1),
        State::new(vec![5], 100, 1, 1),
        State::new(vec![3, 4], 20, 2, 1),
    ];
    assert!(state.combine_all(burst, &add));
    assert_eq!(state.pixels, vec![4, 6]);
    assert_eq!(state.steps, 30);
    assert!(!state.combine_all(Vec::new(), &add));
    assert_eq!(state.pixels, vec![4, 6]);
    assert_eq!(state.steps, 30);
}

#[test]
fn reset_zeroes_the_grid() {
    let mut state = State::new(vec![1.0f64, 2.0, 3.0, 4.0, 5.0, 6.0], 77, 3, 2);
    state.reset(2, 3, 0.0);
    assert_eq!(state.pixels, vec![0.0; 6]);
    assert_eq!((state.steps, state.width, state.height), (0, 2, 3));
    state.steps = 5;
    state.reset(4, 5, 0.0);
    assert_eq!(state.pixels, vec![0.0; 20]);
    assert_eq!((state.steps, state.width, state.height), (0, 4, 5));
    state.reset(0, 0, 0.0);
    assert!(state.pixels.is_empty());
}

fn shade(pixel: u8) -> Option<(u8, u8, u8)> {
    if pixel > 0 {
        Some((pixel, pixel + 1, pixel + 2))
    } else {
        None
    }
}

#[test]
fn draw_shades_every_pixel() {
    let state = State::new(vec![10u8, 0, 20, 30], 1, 2, 2);
    let mut frame = vec![0u8; 16];
    state.draw(&mut frame, &shade);
    assert_eq!(
        frame,
        vec![10, 11, 12, 255, 11, 11, 11, 255, 20, 21, 22, 255, 30, 31, 32, 255]
    );
}

#[test]
fn draw_without_steps_is_background() {
    let state = State::new(vec![10u8, 0, 20, 30], 0, 2, 2);
    let mut frame = vec![0u8; 16];
    state.draw(&mut frame, &shade);
    assert_eq!(frame, [BG, BG, BG, BG].concat());
}

#[test]
fn draw_into_another_size_is_background() {
    let state = State::new(vec![10u8, 0, 20, 30], 3, 2, 2);
    let mut frame = vec![5u8; 14];
    state.draw(&mut frame, &shade);
    assert_eq!(&frame[..12], [BG, BG, BG].concat().as_slice());
    assert_eq!(&frame[12..], &[5, 5]);
}

#[test]
fn render_stamps_the_steps() {
    let state = State::new(vec![10u8, 0], 42, 2, 1);
    let mut image = Image::empty(2, 1);
    state.render(&mut image, &shade);
    assert_eq!(image.steps, 42);
    assert_eq!((image.width, image.height), (2, 1));
    assert_eq!(image.pixels, vec![10, 11, 12, 255, 11, 11, 11, 255]);
}

#[test]
fn worker_first_batch_is_a_tenth() {
    let mut worker = WorkerState::new(64, 48);
    assert_eq!(worker, WorkerState { width: 64, height: 48, steps: 0, first_iteration: true });
    assert_eq!(worker.plan(Control::Idle, 500_000), Plan::Sample(50_000));
    assert!(!worker.first_iteration);
    assert_eq!(worker.plan(Control::Idle, 500_000), Plan::Sample(500_000));

    let mut small = WorkerState::new(1, 1);
    assert_eq!(small.plan(Control::Idle, 9), Plan::Sample(1));
    assert_eq!(small.plan(Control::Idle, 9), Plan::Sample(9));
    let mut none = WorkerState::new(1, 1);
    assert_eq!(none.plan(Control::Idle, 0), Plan::Sample(1));
    assert_eq!(none.plan(Control::Idle, 0), Plan::Sample(0));
}

#[test]
fn worker_resize_starts_over() {
    let mut worker = WorkerState::new(64, 48);
    worker.plan(Control::Idle, 100);
    worker.record(10, 7);
    assert_eq!(worker.steps, 80);
    assert_eq!(worker.plan(Control::Resize(32, 16), 100), Plan::Restart);
    assert_eq!(worker, WorkerState { width: 32, height: 16, steps: 0, first_iteration: true });
    assert_eq!(worker.plan(Control::Idle, 100), Plan::Sample(10));
}

#[test]
fn worker_stop_flushes() {
    let mut worker = WorkerState::new(64, 48);
    worker.plan(Control::Idle, 100);
    worker.record(10, 0);
    let before = worker;
    assert_eq!(worker.plan(Control::Stop, 100), Plan::Flush);
    assert_eq!(worker, before);
    assert_eq!(worker.steps, 10);
}

#[test]
fn worker_keeps_counting_while_the_queue_is_full() {
    let mut worker = WorkerState::new(8, 8);
    worker.record(100, 7);
    assert_eq!(worker.steps, 800);
    assert_eq!(worker.deliver(Delivery::Full), Handoff::Keep);
    assert_eq!(worker.steps, 800);
    worker.record(100, 7);
    assert_eq!(worker.steps, 1600);
    assert_eq!(worker.deliver(Delivery::Sent), Handoff::Fresh);
    assert_eq!(worker.steps, 0);
    worker.record(3, 1);
    assert_eq!(worker.deliver(Delivery::Disconnected), Handoff::Fatal);
    assert_eq!(worker.steps, 6);
    worker.record(0, usize::MAX);
    assert_eq!(worker.steps, 6);
}

#[test]
fn worker_cell_positions() {
    let worker = WorkerState::new(4, 3);
    assert_eq!(worker.cell(0, 0), Some(0));
    assert_eq!(worker.cell(1, 2), Some(9));
    assert_eq!(worker.cell(3, 2), Some(11));
    assert_eq!(worker.cell(4, 0), None);
    assert_eq!(worker.cell(0, 3), None);
    assert_eq!(worker.cell(-1, 0), None);
    assert_eq!(worker.cell(0, -1), None);
    assert_eq!(worker.cell(i64::MAX, 0), None);
    assert_eq!(worker.cell(i64::MIN, i64::MIN), None);
    assert_eq!(WorkerState::new(0, 0).cell(0, 0), None);
}

#[test]
fn history_ring() {
    let mut history = vec![1usize, 2, 3, 4];
    push_history(&mut history, 9);
    assert_eq!(history, vec![9, 1, 2, 3]);
    push_history(&mut history, 8);
    assert_eq!(history, vec![8, 9, 1, 2]);
    let mut single = vec![5usize];
    push_history(&mut single, 6);
    assert_eq!(single, vec![6]);
}

#[derive(Clone, Copy)]
struct Pixel {
    r_sum: f64,
    n: f64,
}

#[test]
fn end_to_end_triangle() {
    let shape: Vec<(f64, f64, f64)> = (0..3)
        .map(|i| {
            let phase = i as f64 / 3.0 * std::f64::consts::TAU - std::f64::consts::PI / 2.0;
            (phase.cos(), phase.sin(), 0.25 + 0.25 * i as f64)
        })
        .collect();
    let zero = Pixel { r_sum: 0.0, n: 0.0 };
    let add = |mine: Pixel, theirs: Pixel| Pixel { r_sum: mine.r_sum + theirs.r_sum, n: mine.n + theirs.n };
    let (width, height) = (64usize, 64usize);
    let ratio = width.min(height) as f64 / 1.25 / 2.0;

    let mut state = State::empty(width, height, zero);
    let mut worker = WorkerState::new(width, height);
    let mut choice = DefaultChoice::new();
    let mut buffer = vec![zero; width * height];
    let mut history = vec![0usize; 4];
    let (mut x, mut y, mut r) = (0.0f64, 0.0f64, 0.0f64);
    let mut inside = 0usize;

    while state.steps < 1_000_000 {
        let batch = match worker.plan(Control::Idle, 100_000) {
            Plan::Sample(batch) => batch,
            other => panic!("{:?}", other),
        };
        let mut schedule = Schedule::new(20, batch, 0);
        loop {
            let step = schedule.next_step();
            if step == Step::Done {
                break;
            }
            assert_ne!(step, Step::Scatter);
            let index = choice.choose_point(&history, shape.len());
            let anchor = shape[index];
            x += (anchor.0 - x) * 0.5;
            y += (anchor.1 - y) * 0.5;
            r += (anchor.2 - r) * 1.0;
            push_history(&mut history, index);
            if step == Step::BurnIn {
                continue;
            }
            let column = (x * ratio + width as f64 / 2.0).floor() as i64;
            let row = (y * ratio + height as f64 / 2.0).floor() as i64;
            if let Some(at) = worker.cell(column, row) {
                buffer[at].r_sum += r;
                buffer[at].n += 1.0;
                inside += 1;
            }
        }
        worker.record(batch, 0);
        let sent = State::new(buffer, worker.steps, width, height);
        assert!(state.combine(sent, &add));
        assert_eq!(worker.deliver(Delivery::Sent), Handoff::Fresh);
        buffer = vec![zero; width * height];
    }

    assert!(state.steps >= 1_000_000);
    let mut total = 0.0;
    for pixel in &state.pixels {
        assert!(pixel.n == 0.0 || (0.0..=1.0).contains(&(pixel.r_sum / pixel.n)));
        total += pixel.n;
    }
    assert_eq!(total, inside as f64);
    assert!(inside > 0);

    let mut image = Image::empty(width, height);
    state.render(&mut image, &|pixel: Pixel| {
        if pixel.n > 0.0 {
            let level = ((pixel.r_sum / pixel.n).powf(1.0 / 2.2) * 255.0) as u8;
            Some((level, level, level))
        } else {
            None
        }
    });
    assert_eq!(image.steps, state.steps);
    let mut frame = vec![0u8; width * height * 4];
    image.draw(width, height, &mut frame);
    assert_eq!(frame, image.pixels);
    assert!(frame.chunks_exact(4).any(|pixel| pixel != BG));
    assert!(frame.chunks_exact(4).all(|pixel| pixel[3] == 255));
}

fn steps_of(mut schedule: Schedule) -> Vec<Step> {
    let mut steps = Vec::new();
    loop {
        let step = schedule.next_step();
        steps.push(step);
        if step == Step::Done {
            assert_eq!(schedule.next_step(), Step::Done);
            return steps;
        }
    }
}

#[test]
fn schedule_runs_burn_in_then_scatter_before_each_main_step() {
    let (burn, scatter, main, done) = (Step::BurnIn, Step::Scatter, Step::Main, Step::Done);
    assert_eq!(
        steps_of(Schedule::new(2, 2, 3)),
        vec![burn, burn, scatter, scatter, scatter, main, scatter, scatter, scatter, main, done]
    );
    assert_eq!(steps_of(Schedule::new(0, 3, 0)), vec![main, main, main, done]);
    assert_eq!(steps_of(Schedule::new(1, 1, 1)), vec![burn, scatter, main, done]);
    assert_eq!(steps_of(Schedule::new(2, 0, 5)), vec![burn, burn, done]);
    assert_eq!(steps_of(Schedule::new(0, 0, 0)), vec![done]);
}

#[test]
fn schedule_accumulates_what_the_worker_counts() {
    for (burnin, batch, scatter) in [(0usize, 1usize, 0usize), (5, 10, 7), (3, 4, 1), (0, 6, 2)] {
        let steps = steps_of(Schedule::new(burnin, batch, scatter));
        let accumulated = steps.iter().filter(|s| **s == Step::Scatter || **s == Step::Main).count();
        let mut worker = WorkerState::new(4, 4);
        worker.record(batch, scatter);
        assert_eq!(accumulated, worker.steps);
        assert_eq!(steps.iter().filter(|s| **s == Step::BurnIn).count(), burnin);
        assert_eq!(steps.iter().filter(|s| **s == Step::Main).count(), batch);
    }
}

#[test]
fn schedule_fields() {
    let mut schedule = Schedule::new(1, 2, 3);
    assert_eq!(
        schedule,
        Schedule { burnin_left: 1, main_left: 2, scatter_left: 3, scatter_steps: 3 }
    );
    schedule.next_step();
    schedule.next_step();
    assert_eq!(
        schedule,
        Schedule { burnin_left: 0, main_left: 2, scatter_left: 2, scatter_steps: 3 }
    );
}

#[test]
fn bursts_fold_the_same_in_any_order() {
    let add = |mine: u64, theirs: u64| mine + theirs;
    let grids = || {
        vec![
            State::new(vec![1u64, 2, 3], 10, 3, 1),
            State::new(vec![10, 20, 30], 20, 3, 1),
            State::new(vec![5], 40, 1, 1),
            State::new(vec![100, 200, 300], 30, 3, 1),
        ]
    };
    let orders: [[usize; 4]; 5] =
        [[0, 1, 2, 3], [3, 2, 1, 0], [1, 3, 0, 2], [2, 0, 3, 1], [0, 3, 2, 1]];
    for order in orders {
        let mut all: Vec<Option<State<u64>>> = grids().into_iter().map(Some).collect();
        let burst: Vec<State<u64>> = order.iter().map(|i| all[*i].take().unwrap()).collect();
        let mut state = State::empty(3, 1, 0u64);
        assert!(state.combine_all(burst, &add));
        assert_eq!(state.pixels, vec![111, 222, 333]);
        assert_eq!(state.steps, 60);
    }
}

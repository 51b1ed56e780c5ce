use ray_marcher::timing::{mean_nanos, time, TIMES};
use std::cell::Cell;

#[test]
fn time_runs_the_work_each_time() {
    let runs = Cell::new(0u32);
    let mean = time(|| runs.set(runs.get() + 1));
    assert_eq!(runs.get(), TIMES);
    assert!(mean.as_secs() < 1);
}

#[test]
fn mean_of_runs_rounds_down() {
    assert_eq!(mean_nanos(1_050, 100), 10);
    assert_eq!(mean_nanos(99, 100), 0);
    assert_eq!(mean_nanos(u128::MAX, 1), u64::MAX);
}

use map_retry::delayed::DelayedRetryIter;
use map_retry::options::{Options, OptionsBuilder};
use std::cell::Cell;
use std::time::{Duration, Instant};

fn alternating_options(delay_ms: u32) -> Options {
    OptionsBuilder::new().min_delay(delay_ms).finalize()
}

#[test]
fn should_return_all_elements() {
    let a = [1, 2, 3, 4, 5, 6, 7, 8, 9, 10];
    let even = Cell::new(true);
    let eng = DelayedRetryIter::new(a.to_vec(), alternating_options(50), |x: i32| {
        even.set(!even.get());
        if even.get() {
            Err(())
        } else {
            Ok(x)
        }
    });
    let res = eng.collect_all();
    assert_eq!(a.len(), res.len());
}

#[test]
fn should_retry_on_error() {
    let even = Cell::new(true);
    let even_fail = |a: i32| {
        even.set(!even.get());
        if even.get() {
            return Err(());
        }
        Ok(a)
    };

    let a = [1, 2, 3, 4, 5, 6, 7, 8, 9, 10];
    // A delay long enough that no retry becomes due while the primary pass
    // is still running, so the attempt order is deterministic.
    let mut it = DelayedRetryIter::new(a.to_vec(), alternating_options(400), even_fail);
    assert_eq!(it.next().unwrap(), Ok(1));
    assert_eq!(it.next().unwrap(), Ok(3));
    assert_eq!(it.next().unwrap(), Ok(5));
    assert_eq!(it.next().unwrap(), Ok(7));
    assert_eq!(it.next().unwrap(), Ok(9));
    // Primary source exhausted; the failed items (2, 4, 6, 8, 10) come back
    // in the order they were enqueued, alternating success and failure.
    assert_eq!(it.next().unwrap(), Ok(2));
    assert_eq!(it.next().unwrap(), Err(()));
    assert_eq!(it.next().unwrap(), Ok(6));
    assert_eq!(it.next().unwrap(), Err(()));
    assert_eq!(it.next().unwrap(), Ok(10));
    // Half of the failed succeeded; the sequence is exhausted.
    assert_eq!(it.next(), None);
}

#[test]
fn should_work_with_iterators() {
    let a = [1, 2, 3, 4, 5, 6, 7, 8, 9, 10];
    let even = Cell::new(true);
    let eng = DelayedRetryIter::new(a.to_vec(), alternating_options(400), |x: i32| {
        even.set(!even.get());
        if even.get() {
            Err(())
        } else {
            Ok(x)
        }
    });
    let res: Vec<_> = eng.collect_all().into_iter().filter(Result::is_ok).collect();
    assert!(a.len() > res.len());
}

#[test]
fn alternating_pattern_totals() {
    // Ten items, alternating fail/succeed, one retry each: the primary pass
    // succeeds on five items, five are retried, the retry pass alternates as
    // well, so two items fail permanently and eight succeed in all.
    let even = Cell::new(true);
    let eng = DelayedRetryIter::new(
        (1..=10).collect::<Vec<i32>>(),
        alternating_options(400),
        |x: i32| {
            even.set(!even.get());
            if even.get() {
                Err(())
            } else {
                Ok(x)
            }
        },
    );
    let res = eng.collect_all();
    assert_eq!(res.len(), 10);
    assert_eq!(res.iter().filter(|r| r.is_ok()).count(), 8);
    assert_eq!(res.iter().filter(|r| r.is_err()).count(), 2);
}

#[test]
fn bounded_attempts() {
    // A transformation that always fails is invoked exactly 1 + num_retries
    // times per item, and every item still yields exactly one result.
    let calls = Cell::new(0u32);
    let eng = DelayedRetryIter::new(
        vec![10i32, 20, 30, 40],
        OptionsBuilder::new().num_retries(2).min_delay(20).finalize(),
        |_x: i32| -> Result<i32, ()> {
            calls.set(calls.get() + 1);
            Err(())
        },
    );
    let res = eng.collect_all();
    assert_eq!(res.len(), 4);
    assert!(res.iter().all(|r| r.is_err()));
    assert_eq!(calls.get(), 4 * 3);
}

#[test]
fn success_precedence() {
    // When every first attempt succeeds, no retry is ever scheduled: the
    // transformation runs exactly once per item.
    let calls = Cell::new(0u32);
    let eng = DelayedRetryIter::new(
        vec![1i32, 2, 3, 4, 5],
        OptionsBuilder::new().min_delay(500).finalize(),
        |x: i32| -> Result<i32, ()> {
            calls.set(calls.get() + 1);
            Ok(x * 2)
        },
    );
    let res = eng.collect_all();
    assert_eq!(res, vec![Ok(2), Ok(4), Ok(6), Ok(8), Ok(10)]);
    assert_eq!(calls.get(), 5);
}

#[test]
fn exhaustion_terminality() {
    // One item, one retry, always failing: two attempts, one Err result,
    // and nothing more afterwards.
    let calls = Cell::new(0u32);
    let mut it = DelayedRetryIter::new(
        vec![7i32],
        alternating_options(20),
        |_x: i32| -> Result<i32, &'static str> {
            calls.set(calls.get() + 1);
            Err("boom")
        },
    );
    assert_eq!(it.next(), Some(Err("boom")));
    assert_eq!(it.next(), None);
    assert_eq!(it.next(), None);
    assert_eq!(calls.get(), 2);
}

#[test]
fn zero_retries_fail_fast() {
    // With a retry budget of zero no delay is needed: a failure is terminal
    // at once and each item is attempted exactly once.
    let calls = Cell::new(0u32);
    let eng = DelayedRetryIter::new(
        vec![1i32, 2, 3],
        OptionsBuilder::new().num_retries(0).finalize(),
        |x: i32| -> Result<i32, i32> {
            calls.set(calls.get() + 1);
            if x == 2 {
                Err(x)
            } else {
                Ok(x)
            }
        },
    );
    let res = eng.collect_all();
    assert_eq!(res.len(), 3);
    assert_eq!(res.iter().filter(|r| r.is_err()).count(), 1);
    assert_eq!(calls.get(), 3);
}

#[test]
fn delay_honored() {
    // A retried item is not re-attempted before min_delay has elapsed since
    // the attempt that failed.
    let first = Cell::new(true);
    let failed_at: Cell<Option<Instant>> = Cell::new(None);
    let retried_at: Cell<Option<Instant>> = Cell::new(None);
    let eng = DelayedRetryIter::new(
        vec![42i32],
        alternating_options(400),
        |x: i32| -> Result<i32, ()> {
            if first.get() {
                first.set(false);
                failed_at.set(Some(Instant::now()));
                Err(())
            } else {
                retried_at.set(Some(Instant::now()));
                Ok(x)
            }
        },
    );
    let res = eng.collect_all();
    assert_eq!(res, vec![Ok(42)]);
    let waited = retried_at.get().unwrap().duration_since(failed_at.get().unwrap());
    assert!(waited >= Duration::from_millis(400));
}

#[test]
fn builder_defaults() {
    let opts = OptionsBuilder::new().finalize();
    assert_eq!(opts.num_retries(), 1);
    assert_eq!(opts.min_delay(), None);
    assert!(!opts.preserve_order());

    let def = Options::default();
    assert_eq!(def.num_retries(), 1);
    assert_eq!(def.min_delay(), None);
    assert!(!def.preserve_order());
}

#[test]
fn builder_settings_carry_through() {
    let opts = OptionsBuilder::new()
        .preserve_order(true)
        .num_retries(3)
        .min_delay(75)
        .finalize();
    assert!(opts.preserve_order());
    assert_eq!(opts.num_retries(), 3);
    assert_eq!(opts.min_delay(), Some(75));
}

#[test]
fn builder_setters_are_independent() {
    let base = OptionsBuilder::new().num_retries(5);
    let opts = base.preserve_order(false).finalize();
    assert_eq!(opts.num_retries(), 5);
    assert!(!opts.preserve_order());
    assert_eq!(opts.min_delay(), None);
}

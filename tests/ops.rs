use deluge::{
    iter, pair_of, worker_concurrency, All, AllPar, Any, AnyPar, Collect, CollectPar, Deluge,
    DelugeBoolExt, DelugeExt, Emit, FilterMapStep, Fold, IndexableStream, IntoDeluge, Iter, Lookup,
    MapStep, PreloadedFutures, Ready, Verdict, Advance, ZipStep,
};

/// Runs a concurrent driver to its end. In each round every running
/// computation finishes, the last loaded first. Returns the yielded items,
/// the number of rounds and the most computations running at once.
fn drive<D: Deluge>(
    c: &mut Collect<D>,
    mut resolve: impl FnMut(D::Output) -> Option<D::Item>,
) -> (Vec<D::Item>, usize, usize) {
    let mut out = Vec::new();
    let mut rounds = 0;
    let mut most = 0;
    loop {
        let mut running = c.load();
        most = most.max(running.len());
        if !running.is_empty() {
            rounds += 1;
        }
        while let Some((i, comp)) = running.pop() {
            c.complete(i, resolve(comp));
        }
        loop {
            match c.poll_output() {
                Emit::Item(v) => out.push(v),
                Emit::Pending => break,
                Emit::Finished => return (out, rounds, most),
            }
        }
    }
}

/// Runs a parallel driver to its end. In each round every worker is refilled
/// and then finishes what it holds. Returns the yielded items, the number of
/// rounds and the most computations one worker held at once.
fn drive_par<D: Deluge>(
    p: &mut CollectPar<D>,
    mut resolve: impl FnMut(D::Output) -> Option<D::Item>,
) -> (Vec<D::Item>, usize, usize) {
    p.start();
    let workers = p.workers();
    let mut out = Vec::new();
    let mut rounds = 0;
    let mut most = 0;
    loop {
        let mut batches = Vec::new();
        for w in 0..workers {
            let batch = p.refill(w);
            most = most.max(batch.len());
            batches.push(batch);
        }
        if batches.iter().any(|b| !b.is_empty()) {
            rounds += 1;
        }
        for (w, batch) in batches.into_iter().enumerate() {
            for e in batch.into_iter().rev() {
                let i = e.index();
                p.finish_one(w, i, resolve(e.into_future()));
            }
            p.recheck(w);
        }
        loop {
            match p.poll_output() {
                Emit::Item(v) => out.push(v),
                Emit::Pending => break,
                Emit::Finished => return (out, rounds, most),
            }
        }
    }
}

fn decide_all<D: Deluge<Item = bool>>(
    a: &mut All<D>,
    mut resolve: impl FnMut(D::Output) -> Option<bool>,
) -> bool {
    loop {
        let mut running = a.collect.load();
        while let Some((i, c)) = running.pop() {
            a.collect.complete(i, resolve(c));
        }
        if let Verdict::Decided(b) = a.poll() {
            return b;
        }
    }
}

fn decide_any<D: Deluge<Item = bool>>(
    a: &mut Any<D>,
    mut resolve: impl FnMut(D::Output) -> Option<bool>,
) -> bool {
    loop {
        let mut running = a.collect.load();
        while let Some((i, c)) = running.pop() {
            a.collect.complete(i, resolve(c));
        }
        if let Verdict::Decided(b) = a.poll() {
            return b;
        }
    }
}

fn run_fold<D: Deluge, A>(
    mut f: Fold<D, A>,
    mut resolve: impl FnMut(D::Output) -> Option<D::Item>,
    step: impl Fn(A, D::Item) -> A,
) -> A {
    loop {
        let mut running = f.collect.load();
        while let Some((i, c)) = running.pop() {
            f.collect.complete(i, resolve(c));
        }
        match f.poll_collect() {
            Emit::Finished => break,
            _ => {}
        }
    }
    while let Some((acc, v)) = f.next_step() {
        f.step_done(step(acc, v));
    }
    f.into_result()
}

fn ready<T>(r: Ready<T>) -> Option<T> {
    r.into_inner()
}

fn mapped<T, O, F: Fn(T) -> O>(s: MapStep<Ready<T>, F>) -> Option<O> {
    s.inner.into_inner().map(|x| (s.f)(x))
}

fn filter_mapped<T, O, F: Fn(T) -> Option<O>>(s: FilterMapStep<Ready<T>, F>) -> Option<O> {
    s.inner.into_inner().and_then(|x| (s.f)(x))
}

#[test]
fn we_can_convert_to_deluge() {
    [1, 2, 3].into_deluge();
}

#[test]
fn we_can_create_iter() {
    let mut del = iter(vec![1, 2, 3]);
    assert_eq!(del.next().and_then(ready), Some(1));
    assert_eq!(del.next().and_then(ready), Some(2));
    assert_eq!(del.next().and_then(ready), Some(3));
    assert!(del.next().is_none());
}

#[test]
fn map_can_be_created() {
    let d: Iter<usize> = [1, 2, 3, 4].into_deluge();
    let m = d.map::<_, usize>(|x: usize| x * 2);
    assert_eq!(m.count(), 4);
}

#[test]
fn we_can_collect() {
    let d: Iter<usize> = [1, 2, 3, 4].into_deluge();
    let (result, _, _) = drive(&mut d.collect(None), ready);
    assert_eq!(vec![1, 2, 3, 4], result);
}

#[test]
fn we_can_mult() {
    let d: Iter<usize> = [1, 2, 3, 4].into_deluge();
    let mut c = d.map(|x: usize| x * 2).collect(None);
    let (result, _, _) = drive(&mut c, mapped);
    assert_eq!(vec![2, 4, 6, 8], result);
}

#[test]
fn filter_map_works() {
    let d: Iter<usize> = [1, 2, 3, 4].into_deluge();
    let mut c = d
        .filter_map(|x: usize| if x % 2 == 0 { Some("yes") } else { None })
        .collect(None);
    let (result, _, _) = drive(&mut c, filter_mapped);
    assert_eq!(vec!["yes", "yes"], result);
}

#[test]
fn filtered_positions_keep_their_place() {
    let d: Iter<usize> = (0..10).into_deluge();
    let mut c = d
        .filter_map(|x: usize| if x % 3 == 0 { Some(x) } else { None })
        .collect(Some(2));
    let (result, _, _) = drive(&mut c, filter_mapped);
    assert_eq!(vec![0, 3, 6, 9], result);
}

#[test]
fn chain_works() {
    let a: Iter<usize> = [1, 2, 3, 4].into_deluge();
    let b: Iter<usize> = [5, 6, 7, 8].into_deluge();
    let (result, _, _) = drive(&mut a.chain(b).collect(None), ready);
    assert_eq!(result.len(), 8);
    assert_eq!(result, vec![1, 2, 3, 4, 5, 6, 7, 8]);
}

#[test]
fn count_works() {
    let d: Iter<usize> = [1, 2, 3, 4].into_deluge();
    assert_eq!(d.count(), 4);
}

#[test]
fn count_of_empty_is_zero() {
    let d: Iter<usize> = Vec::new().into_deluge();
    assert_eq!(d.count(), 0);
}

#[test]
fn take_until_a_limit() {
    let d: Iter<usize> = (0..100).into_deluge();
    let result = run_fold(d.take(10).fold(None, 0), ready, |acc, idx| acc + idx);
    assert_eq!(result, 45);
}

#[test]
fn take_zero_and_take_past_the_end() {
    let d: Iter<usize> = (0..5).into_deluge();
    assert_eq!(d.take(0).count(), 0);
    let d: Iter<usize> = (0..5).into_deluge();
    assert_eq!(d.take(50).count(), 5);
}

#[test]
fn first_works() {
    let d: Iter<usize> = (0..100).into_deluge();
    let (result, _, _) = drive(&mut d.first().collect(None), ready);
    assert_eq!(result, vec![0]);
}

#[test]
fn last_works() {
    let d: Iter<usize> = (0..100).into_deluge();
    let (result, _, _) = drive(&mut d.last().collect(None), ready);
    assert_eq!(result, vec![99]);
}

#[test]
fn last_of_empty_is_empty() {
    let d: Iter<usize> = Vec::new().into_deluge();
    let (result, _, _) = drive(&mut d.last().collect(None), ready);
    assert!(result.is_empty());
}

#[test]
fn we_can_go_between_values_and_deluges() {
    let d: Iter<usize> = [1, 2, 3, 4].into_deluge();
    let (doubled, _, _) = drive(&mut d.map(|x: usize| x * 2).collect(None), mapped);
    let d: Iter<usize> = doubled.into_deluge();
    let result = run_fold(d.map(|x: usize| x * 2).fold(None, 0), mapped, |acc, x| acc + x);
    assert_eq!(result, 40);
}

#[test]
fn we_wait_cuncurrently() {
    let d: Iter<usize> = (0..100).into_deluge();
    let (result, rounds, most) = drive(&mut d.collect(None), ready);
    // Unbounded: every computation runs at once, in a single round.
    assert_eq!(rounds, 1);
    assert_eq!(most, 100);
    assert_eq!(result.len(), 100);
    result.into_iter().enumerate().for_each(|(idx, elem)| assert_eq!(idx, elem));
}

#[test]
fn concurrency_limit() {
    let d: Iter<usize> = (0..15).into_deluge();
    let (result, rounds, most) = drive(&mut d.collect(Some(5)), ready);
    assert_eq!(rounds, 3);
    assert_eq!(most, 5);
    assert_eq!(result.len(), 15);
}

#[test]
fn zero_concurrency_is_unbounded() {
    let d: Iter<usize> = (0..15).into_deluge();
    let (result, rounds, most) = drive(&mut d.collect(Some(0)), ready);
    assert_eq!(rounds, 1);
    assert_eq!(most, 15);
    assert_eq!(result, (0..15).collect::<Vec<usize>>());
}

#[test]
fn collect_of_empty_finishes_at_once() {
    let d: Iter<usize> = Vec::new().into_deluge();
    let mut c = d.collect(Some(3));
    assert!(c.load().is_empty());
    assert!(matches!(c.poll_output(), Emit::Finished));
}

#[test]
fn results_leave_in_input_order_whatever_order_they_arrive_in() {
    let d: Iter<usize> = (0..6).into_deluge();
    let mut c = d.collect(None);
    let mut running = c.load();
    assert_eq!(running.len(), 6);
    assert!(matches!(c.poll_output(), Emit::Pending));
    // Position 3 finishes first: nothing can be yielded before position 0.
    let (i3, c3) = running.remove(3);
    c.complete(i3, ready(c3));
    assert!(matches!(c.poll_output(), Emit::Pending));
    let (i0, c0) = running.remove(0);
    c.complete(i0, ready(c0));
    assert!(matches!(c.poll_output(), Emit::Item(0)));
    assert!(matches!(c.poll_output(), Emit::Pending));
    while let Some((i, comp)) = running.pop() {
        c.complete(i, ready(comp));
    }
    let mut rest = Vec::new();
    loop {
        match c.poll_output() {
            Emit::Item(v) => rest.push(v),
            Emit::Pending => panic!("nothing is running"),
            Emit::Finished => break,
        }
    }
    assert_eq!(rest, vec![1, 2, 3, 4, 5]);
}

#[test]
fn each_computation_is_loaded_once() {
    let d: Iter<usize> = (0..20).into_deluge();
    let mut c = d.collect(Some(4));
    let mut seen = Vec::new();
    loop {
        let mut running = c.load();
        assert!(running.len() <= 4);
        while let Some((i, comp)) = running.pop() {
            seen.push(i);
            c.complete(i, ready(comp));
        }
        let mut done = false;
        loop {
            match c.poll_output() {
                Emit::Item(_) => {}
                Emit::Pending => break,
                Emit::Finished => {
                    done = true;
                    break;
                }
            }
        }
        if done {
            break;
        }
    }
    seen.sort();
    assert_eq!(seen, (0..20).collect::<Vec<usize>>());
}

#[test]
fn any_works() {
    let d: Iter<usize> = [1, 2, 3, 4].into_deluge();
    let mut a = d.map(|x: usize| x == 4).any(None);
    assert!(decide_any(&mut a, mapped));
}

#[test]
fn any_is_false_without_a_match() {
    let d: Iter<usize> = [1, 2, 3, 4].into_deluge();
    let mut a = d.map(|x: usize| x > 10).any(None);
    assert!(!decide_any(&mut a, mapped));
}

#[test]
fn any_short_circuits() {
    let mut evaluated = Vec::new();
    let d: Iter<usize> = [1, 2, 3, 4, 5, 6, 7].into_deluge();
    let mut a = d.map(|x: usize| x).any(Some(1));
    let result = decide_any(&mut a, |s: MapStep<Ready<usize>, _>| {
        let x = s.inner.into_inner().unwrap();
        evaluated.push(x);
        Some(x == 2)
    });
    assert!(result);
    assert!(evaluated.len() < 4);
}

#[test]
fn all_works() {
    let d: Iter<usize> = [1, 2, 3, 4].into_deluge();
    let mut a = d.map(|x: usize| x < 5).all(None);
    assert!(decide_all(&mut a, mapped));
}

#[test]
fn all_is_false_on_a_failure() {
    let d: Iter<usize> = [1, 2, 3, 4].into_deluge();
    let mut a = d.map(|x: usize| x < 3).all(None);
    assert!(!decide_all(&mut a, mapped));
}

#[test]
fn all_short_circuits() {
    let mut evaluated = Vec::new();
    let d: Iter<usize> = [1, 2, 3, 4, 5, 6, 7].into_deluge();
    let mut a = d.map(|x: usize| x).all(Some(1));
    let result = decide_all(&mut a, |s: MapStep<Ready<usize>, _>| {
        let x = s.inner.into_inner().unwrap();
        evaluated.push(x);
        Some(x < 3)
    });
    assert!(!result);
    assert!(evaluated.len() < 5);
}

fn decide_all_par<D: Deluge<Item = bool>>(
    a: &mut AllPar<D>,
    mut resolve: impl FnMut(D::Output) -> Option<bool>,
) -> bool {
    a.collect.start();
    let workers = a.collect.workers();
    loop {
        for w in 0..workers {
            let batch = a.collect.refill(w);
            for e in batch {
                let i = e.index();
                a.collect.finish_one(w, i, resolve(e.into_future()));
            }
            a.collect.recheck(w);
        }
        if let Verdict::Decided(b) = a.poll() {
            return b;
        }
    }
}

fn decide_any_par<D: Deluge<Item = bool>>(
    a: &mut AnyPar<D>,
    mut resolve: impl FnMut(D::Output) -> Option<bool>,
) -> bool {
    a.collect.start();
    let workers = a.collect.workers();
    loop {
        for w in 0..workers {
            let batch = a.collect.refill(w);
            for e in batch {
                let i = e.index();
                a.collect.finish_one(w, i, resolve(e.into_future()));
            }
            a.collect.recheck(w);
        }
        if let Verdict::Decided(b) = a.poll() {
            return b;
        }
    }
}

#[test]
fn any_par_works() {
    let d: Iter<usize> = [1, 2, 3, 4].into_deluge();
    let mut a = AnyPar::new(d.map(|x: usize| x == 4), None, None);
    assert!(decide_any_par(&mut a, mapped));
}

#[test]
fn any_par_short_circuits() {
    let mut evaluated = Vec::new();
    let d: Iter<usize> = [1, 2, 3, 4, 5, 6, 7].into_deluge();
    let mut a = AnyPar::new(d.map(|x: usize| x), Some(2), Some(1));
    let result = decide_any_par(&mut a, |s: MapStep<Ready<usize>, _>| {
        let x = s.inner.into_inner().unwrap();
        evaluated.push(x);
        Some(x == 2)
    });
    assert!(result);
    assert!(evaluated.len() < 5);
}

#[test]
fn all_par_works() {
    let d: Iter<usize> = [1, 2, 3, 4].into_deluge();
    let mut a = AllPar::new(d.map(|x: usize| x < 5), None, None);
    assert!(decide_all_par(&mut a, mapped));
}

#[test]
fn all_par_short_circuits() {
    let mut evaluated = Vec::new();
    let d: Iter<usize> = [1, 2, 3, 4, 5, 6, 7].into_deluge();
    let mut a = AllPar::new(d.map(|x: usize| x), Some(2), Some(1));
    let result = decide_all_par(&mut a, |s: MapStep<Ready<usize>, _>| {
        let x = s.inner.into_inner().unwrap();
        evaluated.push(x);
        Some(x < 3)
    });
    assert!(!result);
    assert!(evaluated.len() < 7);
}

#[test]
fn concurrent_fold() {
    let d: Iter<usize> = (0..100).into_deluge();
    let mut fold = d.map(|idx: usize| idx).fold(None, 0);
    let mut rounds = 0;
    loop {
        let mut running = fold.collect.load();
        if !running.is_empty() {
            rounds += 1;
        }
        while let Some((i, c)) = running.pop() {
            fold.collect.complete(i, mapped(c));
        }
        if let Emit::Finished = fold.poll_collect() {
            break;
        }
    }
    while let Some((acc, v)) = fold.next_step() {
        fold.step_done(acc + v);
    }
    assert_eq!(rounds, 1);
    assert_eq!(fold.into_result(), 4950);
}

#[test]
fn fold_applies_steps_in_input_order() {
    let d: Iter<usize> = [1, 2, 3, 4].into_deluge();
    let result = run_fold(d.fold(Some(2), 0), ready, |acc, x| acc * 10 + x);
    assert_eq!(result, 1234);
}

#[test]
fn fold_of_empty_is_the_initial_value() {
    let d: Iter<usize> = Vec::new().into_deluge();
    let result = run_fold(d.fold(None, 7), ready, |acc, x| acc + x);
    assert_eq!(result, 7);
}

#[test]
fn deluge_ext_parallel_test() {
    let d: Iter<usize> = (0..150).into_deluge();
    let mut p = CollectPar::new(d.map(|idx: usize| idx), Some(10), Some(5));
    let (result, rounds, most) = drive_par(&mut p, mapped);
    assert_eq!(p.per_worker(), 5);
    assert_eq!(most, 5);
    assert_eq!(rounds, 3);
    assert_eq!(result.len(), 150);
    assert_eq!(result, (0..150).collect::<Vec<usize>>());
}

#[test]
fn deluge_ext_parallel_fold() {
    let d: Iter<usize> = (0..150).into_deluge();
    let mut fold = d.map(|idx: usize| idx).fold_par(Some(10), Some(5), 0);
    fold.collect.start();
    let workers = fold.collect.workers();
    let mut rounds = 0;
    loop {
        let mut any = false;
        for w in 0..workers {
            let batch = fold.collect.refill(w);
            any = any || !batch.is_empty();
            for e in batch {
                let i = e.index();
                fold.collect.finish_one(w, i, mapped(e.into_future()));
            }
            fold.collect.recheck(w);
        }
        if any {
            rounds += 1;
        }
        let mut finished = false;
        loop {
            match fold.poll_collect() {
                Emit::Item(()) => {}
                Emit::Pending => break,
                Emit::Finished => {
                    finished = true;
                    break;
                }
            }
        }
        if finished {
            break;
        }
    }
    while let Some((acc, v)) = fold.next_step() {
        fold.step_done(acc + v);
    }
    assert_eq!(rounds, 3);
    assert_eq!(fold.into_result(), 11175);
}

#[test]
fn fold_collects_one_result_per_item() {
    let d: Iter<usize> = [5, 6].into_deluge();
    let mut fold = d.fold(None, 0);
    let mut running = fold.collect.load();
    assert_eq!(running.len(), 2);
    assert!(matches!(fold.poll_collect(), Emit::Pending));
    while let Some((i, c)) = running.pop() {
        fold.collect.complete(i, ready(c));
    }
    assert!(matches!(fold.poll_collect(), Emit::Item(())));
    assert!(matches!(fold.poll_collect(), Emit::Item(())));
    assert!(matches!(fold.poll_collect(), Emit::Finished));
    let mut seen = Vec::new();
    while let Some((acc, v)) = fold.next_step() {
        seen.push(v);
        fold.step_done(acc + v);
    }
    assert_eq!(seen, vec![5, 6]);
    assert_eq!(fold.into_result(), 11);
}

#[test]
fn parallel_matches_concurrent_output() {
    let d: Iter<usize> = (0..40).into_deluge();
    let mut p = CollectPar::new(
        d.filter_map(|x: usize| if x % 4 == 1 { None } else { Some(x * 3) }),
        Some(3),
        Some(2),
    );
    let (par, _, _) = drive_par(&mut p, filter_mapped);
    let d: Iter<usize> = (0..40).into_deluge();
    let mut c = d
        .filter_map(|x: usize| if x % 4 == 1 { None } else { Some(x * 3) })
        .collect(None);
    let (seq, _, _) = drive(&mut c, filter_mapped);
    assert_eq!(par, seq);
    assert_eq!(par.len(), 30);
}

#[test]
fn parallel_default_concurrency_splits_the_work() {
    let d: Iter<usize> = (0..12).into_deluge();
    let mut p = CollectPar::new(d, Some(4), None);
    p.start();
    assert_eq!(p.per_worker(), 3);
    let d: Iter<usize> = (0..3).into_deluge();
    let mut p = CollectPar::new(d, Some(4), Some(0));
    p.start();
    assert_eq!(p.per_worker(), 1);
}

#[test]
fn worker_concurrency_formula() {
    assert_eq!(worker_concurrency(Some(5), 150, 10), 5);
    assert_eq!(worker_concurrency(None, 150, 10), 15);
    assert_eq!(worker_concurrency(Some(0), 7, 2), 4);
    assert_eq!(worker_concurrency(None, 151, 10), 16);
    assert_eq!(worker_concurrency(None, 3, 4), 1);
    assert_eq!(worker_concurrency(None, 0, 4), 1);
}

#[test]
fn default_worker_count_is_at_least_one() {
    let d: Iter<usize> = (0..3).into_deluge();
    let p = CollectPar::new(d, None, None);
    assert!(p.workers() >= 1);
}

#[test]
fn returned_work_is_taken_by_another_worker() {
    let d: Iter<usize> = (0..6).into_deluge();
    let mut p = CollectPar::new(d, Some(2), Some(3));
    p.start();
    let first = p.refill(0);
    assert_eq!(first.iter().map(|e| e.index()).collect::<Vec<usize>>(), vec![0, 1, 2]);
    // Worker 0 fails and gives its work back.
    p.give_back(0, first);
    let second = p.refill(1);
    assert_eq!(second.iter().map(|e| e.index()).collect::<Vec<usize>>(), vec![0, 1, 2]);
    for e in second {
        let i = e.index();
        p.finish_one(1, i, ready(e.into_future()));
    }
    assert!(p.recheck(1));
    let third = p.refill(1);
    assert_eq!(third.iter().map(|e| e.index()).collect::<Vec<usize>>(), vec![3, 4, 5]);
    for e in third {
        let i = e.index();
        p.finish_one(1, i, ready(e.into_future()));
    }
    assert!(!p.recheck(1));
    let mut out = Vec::new();
    loop {
        match p.poll_output() {
            Emit::Item(v) => out.push(v),
            Emit::Pending => panic!("all work is done"),
            Emit::Finished => break,
        }
    }
    assert_eq!(out, vec![0, 1, 2, 3, 4, 5]);
}

#[test]
fn indexed_future_keeps_its_position() {
    let e = deluge::IndexedFuture::new(4, 'z');
    assert_eq!(e.index(), 4);
    assert_eq!(e.into_future(), 'z');
}

#[test]
fn preloaded_futures_know_their_length() {
    let d: Iter<usize> = (0..7).into_deluge();
    let mut p = PreloadedFutures::new(d);
    assert_eq!(p.len(), 7);
    assert_eq!(p.next().and_then(ready), Some(0));
    assert_eq!(p.len(), 6);
}

/// Answers a request for item `i` of one zip side, driving the side's
/// results in order.
fn get_nth<T>(s: &mut IndexableStream<T>, source: &mut std::vec::IntoIter<T>, i: usize) -> Option<T> {
    loop {
        match s.lookup(i) {
            Lookup::Found(v) => return v,
            Lookup::Park => panic!("a single request always drives"),
            Lookup::Drive => match s.advance(i, source.next()) {
                Advance::Delivered(v) => return Some(v),
                Advance::Ended => return None,
                Advance::Stored(_) => {}
            },
        }
    }
}

fn zip_all(first: Vec<u64>, second: Vec<u64>) -> Vec<(u64, u64)> {
    let a: Iter<u64> = first.into_deluge();
    let b: Iter<u64> = second.into_deluge();
    let mut z = a.zip::<_, (), ()>(b);
    let (s1, s2) = z.take_sides();
    let (r1, _, _) = drive(&mut s1.unwrap().collect(None), ready);
    let (r2, _, _) = drive(&mut s2.unwrap().collect(None), ready);
    let mut src1 = r1.into_iter();
    let mut src2 = r2.into_iter();
    let mut st1 = IndexableStream::new();
    let mut st2 = IndexableStream::new();
    z.attach((), ());
    let mut c = z.collect(None);
    let (out, _, _) = drive(&mut c, |step: ZipStep<(), ()>| {
        let x = get_nth(&mut st1, &mut src1, step.index);
        let y = get_nth(&mut st2, &mut src2, step.index);
        pair_of(x, y)
    });
    out
}

#[test]
fn zips_work() {
    let result = zip_all((0..100).collect(), (10..90).collect());
    assert_eq!(result.len(), 80);
}

#[test]
fn zips_inverted_waits() {
    let result = zip_all((0..100).rev().collect(), (0..90).collect());
    assert_eq!(result.len(), 90);
    for (idx, (fst, snd)) in result.into_iter().enumerate() {
        assert_eq!(idx as u64, 99 - fst);
        assert_eq!(idx as u64, snd);
    }
}

#[test]
fn indexable_stream_buffers_items_asked_for_later() {
    let mut s: IndexableStream<char> = IndexableStream::new();
    // Request 2 is the only one waiting, so it drives the stream.
    assert!(matches!(s.lookup(2), Lookup::Drive));
    assert!(matches!(s.advance(2, Some('a')), Advance::Stored(Some(2))));
    assert!(matches!(s.advance(2, Some('b')), Advance::Stored(Some(2))));
    assert!(matches!(s.advance(2, Some('c')), Advance::Delivered('c')));
    assert!(matches!(s.lookup(0), Lookup::Found(Some('a'))));
    assert!(matches!(s.lookup(1), Lookup::Found(Some('b'))));
}

#[test]
fn indexable_stream_lets_the_lowest_request_drive() {
    let mut s: IndexableStream<u8> = IndexableStream::new();
    assert!(matches!(s.lookup(5), Lookup::Drive));
    assert!(matches!(s.lookup(1), Lookup::Drive));
    assert!(matches!(s.lookup(5), Lookup::Park));
    assert!(matches!(s.advance(1, Some(10)), Advance::Stored(Some(1))));
    assert!(matches!(s.advance(1, Some(11)), Advance::Delivered(11)));
    assert!(matches!(s.lookup(5), Lookup::Drive));
    assert!(matches!(s.advance(5, None), Advance::Ended));
    assert!(matches!(s.lookup(5), Lookup::Found(None)));
    assert!(matches!(s.lookup(0), Lookup::Found(Some(10))));
}

#[test]
fn zip_pairs_only_present_values() {
    assert_eq!(pair_of(Some(1), Some('x')), Some((1, 'x')));
    assert_eq!(pair_of::<i32, char>(None, Some('x')), None);
    assert_eq!(pair_of::<i32, char>(Some(1), None), None);
}

#[test]
fn zip_with_a_filtered_side_is_as_long_as_the_shorter_output() {
    let a: Iter<usize> = (0..10).into_deluge();
    let b: Iter<usize> = (0..10).into_deluge();
    let mut z = a
        .filter_map(|x: usize| if x % 2 == 0 { Some(x) } else { None })
        .zip::<_, (), ()>(b);
    // Nothing is handed out before the evaluated sides are attached.
    assert!(Deluge::next(&mut z).is_none());
    let (s1, s2) = z.take_sides();
    let (r1, _, _) = drive(&mut s1.unwrap().collect(None), filter_mapped);
    let (r2, _, _) = drive(&mut s2.unwrap().collect(None), ready);
    let mut src1 = r1.into_iter();
    let mut src2 = r2.into_iter();
    let mut st1 = IndexableStream::new();
    let mut st2 = IndexableStream::new();
    let mut pairs = Vec::new();
    for i in 0..10 {
        let x = get_nth(&mut st1, &mut src1, i);
        let y = get_nth(&mut st2, &mut src2, i);
        if let Some(p) = pair_of(x, y) {
            pairs.push(p);
        }
    }
    assert_eq!(pairs, vec![(0, 0), (2, 1), (4, 2), (6, 3), (8, 4)]);
}

#[test]
fn iter_range_and_array_keep_order() {
    let mut d = deluge::iter_range(3..6);
    assert_eq!(d.next().and_then(ready), Some(3));
    let mut d = deluge::iter_array(['p', 'q']);
    assert_eq!(d.next().and_then(ready), Some('p'));
    assert_eq!(d.next().and_then(ready), Some('q'));
    assert!(d.next().is_none());
    let mut e = deluge::iter_range(5..2);
    assert!(e.next().is_none());
}

use ssdocs::parallel::{get_thread_count, BuildProgress, WorkQueue};

#[test]
fn test_get_thread_count() {
    let count = get_thread_count(None);
    assert!(count >= 1);
    assert!(get_thread_count(Some(0)) >= 1);
    assert!(get_thread_count(Some(usize::MAX)) >= 1);
}

#[test]
fn thread_count_defaults_to_four() {
    assert_eq!(get_thread_count(None), 4);
    assert_eq!(get_thread_count(Some(0)), 4);
    assert_eq!(get_thread_count(Some(1)), 1);
    assert_eq!(get_thread_count(Some(12)), 12);
}

#[test]
fn test_build_progress() {
    let mut progress = BuildProgress::new();
    progress.increment_built();
    progress.increment_built();
    progress.increment_skipped();

    assert_eq!(progress.get_built(), 2);
    assert_eq!(progress.get_skipped(), 1);
}

#[test]
fn test_work_queue() {
    let mut queue = WorkQueue::new();
    let mut receiver = queue.get_receiver();

    queue.send(1).unwrap();
    queue.send(2).unwrap();
    queue.send(3).unwrap();
    queue.close();

    let items: Vec<i32> = queue.try_iter(&mut receiver).into_iter().copied().collect();
    assert_eq!(items, vec![1, 2, 3]);
}

#[test]
fn closed_queue_hands_item_back() {
    let mut queue = WorkQueue::new();
    queue.send("a").unwrap();
    queue.close();
    assert!(queue.is_closed());
    let refused = queue.send("b").unwrap_err();
    assert_eq!(refused.0, "b");
    assert_eq!(queue.len(), 1);
}

#[test]
fn every_item_goes_to_exactly_one_worker() {
    for workers in 1..=5usize {
        for count in [0usize, 1, 4, 17] {
            let mut queue = WorkQueue::new();
            let mut receiver = queue.get_receiver();
            for item in 0..count {
                queue.send(item).unwrap();
            }
            queue.close();
            let mut shares: Vec<Vec<usize>> = vec![Vec::new(); workers];
            let mut running = vec![true; workers];
            let mut turn = 0;
            while running.iter().any(|r| *r) {
                let worker = (turn * 7 + 3) % workers;
                turn += 1;
                if !running[worker] {
                    continue;
                }
                match queue.recv(&mut receiver) {
                    Some(item) => shares[worker].push(*item),
                    None => running[worker] = false,
                }
            }
            let mut all: Vec<usize> = shares.into_iter().flatten().collect();
            assert_eq!(all.len(), count);
            all.sort();
            assert_eq!(all, (0..count).collect::<Vec<usize>>());
            assert!(queue.recv(&mut receiver).is_none());
        }
    }
}

#[test]
fn a_worker_alone_gives_one_result_per_item() {
    let mut queue = WorkQueue::new();
    let mut receiver = queue.get_receiver();
    for item in ["a", "bb", "ccc"] {
        queue.send(item.to_string()).unwrap();
    }
    queue.close();
    assert_eq!(queue.recv(&mut receiver).map(|s| s.as_str()), Some("a"));
    let lengths = queue.run_worker(&mut receiver, |item: &String| item.len());
    assert_eq!(lengths, vec![2, 3]);
    assert!(queue.run_worker(&mut receiver, |item: &String| item.len()).is_empty());
    let empty: WorkQueue<u8> = WorkQueue::new();
    let mut cursor = empty.get_receiver();
    assert!(empty.run_worker(&mut cursor, |item: &u8| *item).is_empty());
}

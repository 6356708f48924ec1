use http_server::threadpool::{Dispatch, PoolClosed, ThreadPool};

fn run(outcome: Result<Dispatch<u32>, PoolClosed>) -> (usize, u32) {
    match outcome {
        Ok(Dispatch::Run { worker, task }) => (worker, task),
        other => panic!("{:?}", other),
    }
}

#[test]
fn new_pool_is_idle() {
    let pool: ThreadPool<u32> = ThreadPool::new(4);
    assert_eq!(pool.size(), 4);
    assert_eq!(pool.running(), 0);
    assert_eq!(pool.queued(), 0);
}

#[test]
fn pool_saturation() {
    let workers = 3;
    let tasks = 8;
    let mut pool: ThreadPool<u32> = ThreadPool::new(workers);
    let mut started: Vec<u32> = Vec::new();
    for task in 0..tasks {
        match pool.queue(task) {
            Ok(Dispatch::Run { worker, task }) => {
                assert_eq!(worker as u32, task);
                started.push(task);
            }
            Ok(Dispatch::Queued) => assert!(task as usize >= workers),
            Err(e) => panic!("{:?}", e),
        }
    }
    assert_eq!(pool.running(), workers);
    assert_eq!(pool.queued(), tasks as usize - workers);

    let mut completed = 0;
    let mut worker = 0;
    while pool.running() > 0 {
        completed += 1;
        match pool.finish(worker) {
            Some(next) => started.push(next),
            None => worker += 1,
        }
    }
    assert_eq!(completed, tasks);
    assert_eq!(started, (0..tasks).collect::<Vec<u32>>());
    assert_eq!(pool.queued(), 0);
}

#[test]
fn idle_worker_of_lowest_index_runs_the_task() {
    let mut pool: ThreadPool<u32> = ThreadPool::new(3);
    assert_eq!(run(pool.queue(10)), (0, 10));
    assert_eq!(run(pool.queue(11)), (1, 11));
    assert_eq!(run(pool.queue(12)), (2, 12));
    assert_eq!(pool.finish(1), None);
    assert_eq!(pool.running(), 2);
    assert_eq!(run(pool.queue(13)), (1, 13));
}

#[test]
fn waiting_tasks_leave_in_submission_order() {
    let mut pool: ThreadPool<u32> = ThreadPool::new(1);
    assert_eq!(run(pool.queue(1)), (0, 1));
    assert!(matches!(pool.queue(2), Ok(Dispatch::Queued)));
    assert!(matches!(pool.queue(3), Ok(Dispatch::Queued)));
    assert_eq!(pool.finish(0), Some(2));
    assert_eq!(pool.finish(0), Some(3));
    assert_eq!(pool.finish(0), None);
    assert_eq!(pool.running(), 0);
}

#[test]
fn finish_of_an_idle_or_unknown_worker_changes_nothing() {
    let mut pool: ThreadPool<u32> = ThreadPool::new(2);
    assert_eq!(run(pool.queue(1)), (0, 1));
    assert_eq!(pool.finish(1), None);
    assert_eq!(pool.finish(7), None);
    assert_eq!(pool.running(), 1);
    assert_eq!(pool.queued(), 0);
}

#[test]
fn closed_pool_takes_no_task() {
    let mut pool: ThreadPool<u32> = ThreadPool::new(1);
    assert_eq!(run(pool.queue(1)), (0, 1));
    assert!(matches!(pool.queue(2), Ok(Dispatch::Queued)));
    pool.close();
    assert_eq!(pool.queue(3).err(), Some(PoolClosed));
    assert_eq!(pool.queued(), 1);
    assert_eq!(pool.finish(0), Some(2));
    assert_eq!(pool.finish(0), None);
}

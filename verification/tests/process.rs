use bullrs::errors::BullRsError;
use bullrs::process::{Acquired, ProcessPool, SandboxOptions};

#[test]
fn released_process_is_reused_first() {
    let mut pool: ProcessPool<u32> = ProcessPool::new(None);
    assert!(matches!(pool.acquire("a.js"), Ok(Acquired::SpawnNew)));
    pool.mark_busy("a.js");
    pool.release("a.js", 1);
    pool.release("a.js", 2);
    assert!(matches!(pool.acquire("a.js"), Ok(Acquired::Reused(2))));
    assert!(matches!(pool.acquire("a.js"), Ok(Acquired::Reused(1))));
    assert!(matches!(pool.acquire("b.js"), Ok(Acquired::SpawnNew)));
}

#[test]
fn pool_limit_is_enforced() {
    let mut pool: ProcessPool<u32> = ProcessPool::new(Some(SandboxOptions { max_processes: 2, timeout: 10 }));
    pool.mark_busy("a");
    pool.mark_busy("b");
    assert!(matches!(pool.acquire("c"), Err(BullRsError::ProcessLimitReached)));
    pool.release("a", 5);
    assert!(matches!(pool.acquire("c"), Err(BullRsError::ProcessLimitReached)));
    assert_eq!(pool.drain(), vec![5]);
    assert!(matches!(pool.acquire("c"), Ok(Acquired::SpawnNew)));
}

#[test]
fn sandbox_defaults() {
    let o = SandboxOptions::default();
    assert_eq!(o.max_processes, 4);
    assert_eq!(o.timeout, 30000);
}

#[test]
fn test_process_pool() {
    let mut pool: ProcessPool<u32> = ProcessPool::new(None);
    let processor_path = "/tmp/processor.sh";
    let process = match pool.acquire(processor_path) {
        Ok(Acquired::SpawnNew) => {
            pool.mark_busy(processor_path);
            Ok(7u32)
        }
        Ok(Acquired::Reused(p)) => Ok(p),
        Err(e) => Err(e),
    };
    if let Ok(p) = process {
        pool.release(processor_path, p);
        assert!(matches!(pool.acquire(processor_path), Ok(Acquired::Reused(7))));
    }
}

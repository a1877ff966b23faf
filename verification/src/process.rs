use vstd::prelude::*;

use crate::errors::BullRsError;

verus! {

/// Sandbox process options
#[derive(Debug, Clone, Copy)]
pub struct SandboxOptions {
    /// Maximum number of processes to keep
    pub max_processes: usize,
    /// Timeout in milliseconds before killing a process
    pub timeout: u64,
}

impl Default for SandboxOptions {
    fn default() -> (o: Self)
        ensures
            o.max_processes == 4,
            o.timeout == 30000,
    {
        SandboxOptions { max_processes: 4, timeout: 30000 }
    }
}

/// Pool of worker processes `P`, kept per processor file: the idle
/// processes of each file, and the files whose process is busy.
pub struct ProcessPool<P> {
    options: SandboxOptions,
    available: Vec<(String, Vec<P>)>,
    busy: Vec<String>,
}

/// The idle processes of `file` in an availability list (none if absent).
pub open spec fn idle_of<P>(available: Seq<(String, Vec<P>)>, file: Seq<char>) -> Seq<P>
    decreases available.len(),
{
    if available.len() == 0 {
        Seq::empty()
    } else if available.last().0@ == file {
        available.last().1@
    } else {
        idle_of(available.drop_last(), file)
    }
}

/// The number of idle processes in an availability list.
pub open spec fn idle_count<P>(available: Seq<(String, Vec<P>)>) -> nat
    decreases available.len(),
{
    if available.len() == 0 {
        0
    } else {
        idle_count(available.drop_last()) + available.last().1@.len()
    }
}

/// The texts held in a list of strings.
pub open spec fn file_set(v: Seq<String>) -> Set<Seq<char>> {
    Set::new(|x: Seq<char>| exists|i: int| 0 <= i < v.len() && v[i]@ == x)
}

/// All idle processes of an availability list, entry by entry.
pub open spec fn all_idle<P>(available: Seq<(String, Vec<P>)>) -> Seq<P>
    decreases available.len(),
{
    if available.len() == 0 {
        Seq::empty()
    } else {
        all_idle(available.drop_last()) + available.last().1@
    }
}

/// The outcome of asking the pool for a process of a file.
pub enum Acquired<P> {
    /// An idle process of the file, now busy
    Reused(P),
    /// No idle process, but room for a new one
    SpawnNew,
}

impl<P> ProcessPool<P> {
    /// Each processor file has at most one availability entry.
    #[verifier::type_invariant]
    spec fn entries_distinct(&self) -> bool {
        &&& forall|i: int, j: int|
            0 <= i < j < self.available@.len() ==> self.available@[i].0@ != self.available@[j].0@
        &&& forall|i: int, j: int| 0 <= i < j < self.busy@.len() ==> self.busy@[i]@ != self.busy@[j]@
    }

    pub closed spec fn max_processes(&self) -> nat {
        self.options.max_processes as nat
    }

    /// The idle processes of `file`, the latest released last.
    pub closed spec fn idle(&self, file: Seq<char>) -> Seq<P> {
        idle_of(self.available@, file)
    }

    /// The files whose process is busy.
    pub closed spec fn busy_files(&self) -> Set<Seq<char>> {
        file_set(self.busy@)
    }

    /// All processes the pool accounts for: busy ones and idle ones.
    pub closed spec fn total(&self) -> nat {
        self.busy@.len() + idle_count(self.available@)
    }

    /// Create a new process pool
    pub fn new(options: Option<SandboxOptions>) -> (pool: Self)
        ensures
            pool.max_processes() == match options {
                Some(o) => o.max_processes as nat,
                None => 4,
            },
            pool.total() == 0,
            forall|f: Seq<char>| pool.idle(f) == Seq::<P>::empty(),
            pool.busy_files() == Set::<Seq<char>>::empty(),
    {
        let options = match options {
            Some(o) => o,
            None => SandboxOptions::default(),
        };
        let pool = ProcessPool { options, available: Vec::new(), busy: Vec::new() };
        assert(file_set(pool.busy@) =~= Set::<Seq<char>>::empty());
        pool
    }
}

proof fn lemma_idle_of_other_entries<P>(available: Seq<(String, Vec<P>)>, k: int, entry: (String, Vec<P>), file: Seq<char>)
    requires
        0 <= k < available.len(),
        available[k].0@ == entry.0@,
        forall|i: int, j: int| 0 <= i < j < available.len() ==> available[i].0@ != available[j].0@,
    ensures
        file != entry.0@ ==> idle_of(available.update(k, entry), file) == idle_of(available, file),
        file == entry.0@ ==> idle_of(available.update(k, entry), file) == entry.1@,
        file == entry.0@ ==> idle_of(available, file) == available[k].1@,
    decreases available.len(),
{
    let upd = available.update(k, entry);
    if k == available.len() - 1 {
        assert(upd.drop_last() == available.drop_last());
        if file == entry.0@ {
        } else {
        }
        lemma_idle_absent(available.drop_last(), entry.0@);
    } else {
        assert(upd.drop_last() == available.drop_last().update(k, entry));
        lemma_idle_of_other_entries(available.drop_last(), k, entry, file);
    }
}

proof fn lemma_idle_absent<P>(available: Seq<(String, Vec<P>)>, file: Seq<char>)
    ensures
        (forall|i: int| 0 <= i < available.len() ==> (#[trigger] available[i]).0@ != file) ==> idle_of(available, file)
            == Seq::<P>::empty(),
    decreases available.len(),
{
    if available.len() > 0 {
        lemma_idle_absent(available.drop_last(), file);
    }
}

proof fn lemma_idle_count_update<P>(available: Seq<(String, Vec<P>)>, k: int, entry: (String, Vec<P>))
    requires
        0 <= k < available.len(),
    ensures
        idle_count(available.update(k, entry)) + available[k].1@.len() == idle_count(available) + entry.1@.len(),
    decreases available.len(),
{
    let upd = available.update(k, entry);
    if k == available.len() - 1 {
        assert(upd.drop_last() == available.drop_last());
    } else {
        assert(upd.drop_last() == available.drop_last().update(k, entry));
        lemma_idle_count_update(available.drop_last(), k, entry);
    }
}

/// Finds the availability entry of `file`.
fn find_entry<P>(available: &Vec<(String, Vec<P>)>, file: &String) -> (r: Option<usize>)
    ensures
        r matches Some(k) ==> k < available@.len() && available@[k as int].0@ == file@,
        r is None ==> forall|i: int| 0 <= i < available@.len() ==> (#[trigger] available@[i]).0@ != file@,
{
    let mut i: usize = 0;
    while i < available.len()
        invariant
            i <= available@.len(),
            forall|j: int| 0 <= j < i ==> (#[trigger] available@[j]).0@ != file@,
        decreases available@.len() - i,
    {
        if available[i].0 == *file {
            return Some(i);
        }
        i = i + 1;
    }
    None
}

/// Counts the processes accounted for in the lists, capped at the largest `usize`.
fn count_processes<P>(busy: &Vec<String>, available: &Vec<(String, Vec<P>)>) -> (n: usize)
    ensures
        n == if busy@.len() + idle_count(available@) > usize::MAX {
            usize::MAX as nat
        } else {
            busy@.len() + idle_count(available@)
        },
{
    let mut n = busy.len();
    let mut i: usize = 0;
    assert(available@.take(0) == Seq::<(String, Vec<P>)>::empty());
    while i < available.len()
        invariant
            i <= available@.len(),
            n == if busy@.len() + idle_count(available@.take(i as int)) > usize::MAX {
                usize::MAX as nat
            } else {
                busy@.len() + idle_count(available@.take(i as int))
            },
        decreases available@.len() - i,
    {
        let k = available[i].1.len();
        proof {
            assert(available@.take(i + 1).drop_last() == available@.take(i as int));
        }
        n = if n > usize::MAX - k {
            usize::MAX
        } else {
            n + k
        };
        i = i + 1;
    }
    assert(available@.take(available@.len() as int) == available@);
    n
}

impl<P> ProcessPool<P> {
    /// Asks for a process of `file`: its latest released idle process, now
    /// busy; else leave to spawn a new one if the pool has room; else
    /// `ProcessLimitReached`.
    pub fn acquire(&mut self, file: &str) -> (res: Result<Acquired<P>, BullRsError>)
        ensures
            final(self).max_processes() == old(self).max_processes(),
            old(self).idle(file@).len() > 0 ==> {
                &&& res matches Ok(Acquired::Reused(p)) && p == old(self).idle(file@).last()
                &&& final(self).idle(file@) == old(self).idle(file@).drop_last()
                &&& forall|f: Seq<char>| f != file@ ==> final(self).idle(f) == old(self).idle(f)
                &&& final(self).busy_files() == old(self).busy_files().insert(file@)
            },
            old(self).idle(file@).len() == 0 ==> {
                &&& (old(self).total() < old(self).max_processes() ==> res matches Ok(Acquired::SpawnNew))
                &&& (old(self).total() >= old(self).max_processes() ==> res matches Err(BullRsError::ProcessLimitReached))
                &&& *final(self) == *old(self)
            },
    {
        proof {
            use_type_invariant(&*self);
        }
        let key = file.to_owned();
        match find_entry(&self.available, &key) {
            Some(k) => {
                if self.available[k].1.len() > 0 {
                    proof {
                        lemma_idle_of_other_entries(self.available@, k as int, self.available@[k as int], file@);
                    }
                    let mut available: Vec<(String, Vec<P>)> = Vec::new();
                    std::mem::swap(&mut available, &mut self.available);
                    let ghost before = available@;
                    let mut entry = available.remove(k);
                    let p = entry.1.pop().unwrap();
                    available.insert(k, entry);
                    proof {
                        assert(available@ =~= before.update(k as int, available@[k as int]));
                        lemma_idle_of_other_entries(before, k as int, available@[k as int], file@);
                        assert forall|f: Seq<char>| f != file@ implies idle_of(available@, f) == idle_of(before, f) by {
                            lemma_idle_of_other_entries(before, k as int, available@[k as int], f);
                        }
                        assert forall|i: int, j: int| 0 <= i < j < available@.len() implies available@[i].0@ != available@[j].0@ by {
                            assert(before[i].0@ != before[j].0@);
                        }
                    }
                    self.available = available;
                    self.insert_busy(key);
                    return Ok(Acquired::Reused(p));
                }
                proof {
                    lemma_idle_of_other_entries(self.available@, k as int, self.available@[k as int], file@);
                }
            },
            None => {
                proof {
                    lemma_idle_absent(self.available@, file@);
                }
            },
        }
        let total = count_processes(&self.busy, &self.available);
        if total < self.options.max_processes {
            Ok(Acquired::SpawnNew)
        } else {
            Err(BullRsError::ProcessLimitReached)
        }
    }

    fn insert_busy(&mut self, file: String)
        ensures
            final(self).available@ == old(self).available@,
            final(self).options == old(self).options,
            final(self).busy_files() == old(self).busy_files().insert(file@),
    {
        proof {
            use_type_invariant(&*self);
        }
        let mut i: usize = 0;
        while i < self.busy.len()
            invariant
                i <= self.busy@.len(),
                forall|j: int| 0 <= j < i ==> self.busy@[j]@ != file@,
            decreases self.busy@.len() - i,
        {
            if self.busy[i] == file {
                proof {
                    assert(self.busy_files() =~= self.busy_files().insert(file@));
                }
                return;
            }
            i = i + 1;
        }
        let mut busy: Vec<String> = Vec::new();
        std::mem::swap(&mut busy, &mut self.busy);
        let ghost before = busy@;
        busy.push(file);
        proof {
            assert(file_set(busy@) =~= file_set(before).insert(file@)) by {
                assert forall|x: Seq<char>| file_set(busy@).contains(x) implies file_set(before).insert(file@).contains(x) by {
                    let i = choose|i: int| 0 <= i < busy@.len() && busy@[i]@ == x;
                    if i < before.len() {
                        assert(before[i]@ == x);
                    }
                }
                assert forall|x: Seq<char>| file_set(before).insert(file@).contains(x) implies file_set(busy@).contains(x) by {
                    if x == file@ {
                        assert(busy@[before.len() as int]@ == x);
                    } else {
                        let i = choose|i: int| 0 <= i < before.len() && before[i]@ == x;
                        assert(busy@[i]@ == x);
                    }
                }
            }
            assert forall|a: int, b: int| 0 <= a < b < busy@.len() implies busy@[a]@ != busy@[b]@ by {
                if b < before.len() {
                    assert(before[a]@ != before[b]@);
                }
            }
        }
        self.busy = busy;
    }

    /// Records that a new process of `file` was spawned and is busy.
    pub fn mark_busy(&mut self, file: &str)
        ensures
            final(self).max_processes() == old(self).max_processes(),
            forall|f: Seq<char>| final(self).idle(f) == old(self).idle(f),
            final(self).busy_files() == old(self).busy_files().insert(file@),
    {
        self.insert_busy(file.to_owned());
    }

    /// All idle processes, file by file.
    pub closed spec fn idle_processes(&self) -> Seq<P> {
        all_idle(self.available@)
    }

    /// Returns the process of `file` to the pool: it becomes the file's
    /// latest idle process and the file is no longer busy.
    pub fn release(&mut self, file: &str, process: P)
        ensures
            final(self).max_processes() == old(self).max_processes(),
            final(self).idle(file@) == old(self).idle(file@).push(process),
            forall|f: Seq<char>| f != file@ ==> final(self).idle(f) == old(self).idle(f),
            final(self).busy_files() == old(self).busy_files().remove(file@),
    {
        proof {
            use_type_invariant(&*self);
        }
        let key = file.to_owned();
        let mut busy: Vec<String> = Vec::new();
        std::mem::swap(&mut busy, &mut self.busy);
        let ghost busy_before = busy@;
        let mut i: usize = 0;
        let mut kept: Vec<String> = Vec::new();
        while i < busy.len()
            invariant
                i <= busy@.len(),
                busy@ == busy_before,
                forall|a: int, b: int| 0 <= a < b < busy_before.len() ==> busy_before[a]@ != busy_before[b]@,
                forall|a: int, b: int| 0 <= a < b < kept@.len() ==> kept@[a]@ != kept@[b]@,
                forall|x: Seq<char>| file_set(kept@).contains(x) <==> (x != key@ && exists|j: int| 0 <= j < i && busy_before[j]@ == x),
            decreases busy@.len() - i,
        {
            if busy[i] != key {
                let ghost prev = kept@;
                kept.push(busy[i].clone());
                proof {
                    assert forall|x: Seq<char>| file_set(kept@).contains(x) <==> (x != key@ && exists|j: int| 0 <= j < i + 1 && busy_before[j]@ == x) by {
                        if file_set(kept@).contains(x) {
                            let t = choose|t: int| 0 <= t < kept@.len() && kept@[t]@ == x;
                            if t < prev.len() {
                                assert(file_set(prev).contains(x));
                            }
                        }
                        if x != key@ && exists|j: int| 0 <= j < i + 1 && busy_before[j]@ == x {
                            let j = choose|j: int| 0 <= j < i + 1 && busy_before[j]@ == x;
                            if j < i {
                                assert(file_set(prev).contains(x));
                                let t = choose|t: int| 0 <= t < prev.len() && prev[t]@ == x;
                                assert(kept@[t]@ == x);
                            } else {
                                assert(kept@[prev.len() as int]@ == x);
                            }
                        }
                    }
                    assert forall|a: int, b: int| 0 <= a < b < kept@.len() implies kept@[a]@ != kept@[b]@ by {
                        if b == prev.len() {
                            if kept@[a]@ == kept@[b]@ {
                                assert(file_set(prev).contains(kept@[a]@));
                                let j = choose|j: int| 0 <= j < i && busy_before[j]@ == kept@[a]@;
                                assert(busy_before[j]@ != busy_before[i as int]@);
                            }
                        } else {
                            assert(prev[a]@ != prev[b]@);
                        }
                    }
                }
            }
            i = i + 1;
        }
        proof {
            assert(file_set(kept@) =~= file_set(busy_before).remove(key@));
        }
        self.busy = kept;
        let mut available: Vec<(String, Vec<P>)> = Vec::new();
        std::mem::swap(&mut available, &mut self.available);
        let ghost before = available@;
        match find_entry(&available, &key) {
            Some(k) => {
                let mut entry = available.remove(k);
                entry.1.push(process);
                available.insert(k, entry);
                proof {
                    assert(available@ =~= before.update(k as int, available@[k as int]));
                    lemma_idle_of_other_entries(before, k as int, available@[k as int], file@);
                    assert forall|f: Seq<char>| f != file@ implies idle_of(available@, f) == idle_of(before, f) by {
                        lemma_idle_of_other_entries(before, k as int, available@[k as int], f);
                    }
                    assert forall|a: int, b: int| 0 <= a < b < available@.len() implies available@[a].0@ != available@[b].0@ by {
                        assert(before[a].0@ != before[b].0@);
                    }
                }
            },
            None => {
                let mut v: Vec<P> = Vec::new();
                v.push(process);
                available.push((key, v));
                proof {
                    lemma_idle_absent(before, file@);
                    assert(available@.drop_last() == before);
                    assert forall|a: int, b: int| 0 <= a < b < available@.len() implies available@[a].0@ != available@[b].0@ by {
                        if b < before.len() {
                            assert(before[a].0@ != before[b].0@);
                        } else {
                            assert(before[a].0@ != file@);
                        }
                    }
                    assert(v@ == Seq::<P>::empty().push(process));
                }
            },
        }
        self.available = available;
    }

    /// Empties the pool (for cleanup): hands back every idle process, file by
    /// file, and forgets the busy ones.
    pub fn drain(&mut self) -> (idle: Vec<P>)
        ensures
            idle@ == old(self).idle_processes(),
            final(self).max_processes() == old(self).max_processes(),
            forall|f: Seq<char>| final(self).idle(f) == Seq::<P>::empty(),
            final(self).busy_files() == Set::<Seq<char>>::empty(),
            final(self).total() == 0,
    {
        proof {
            use_type_invariant(&*self);
        }
        let mut available: Vec<(String, Vec<P>)> = Vec::new();
        std::mem::swap(&mut available, &mut self.available);
        let mut busy: Vec<String> = Vec::new();
        std::mem::swap(&mut busy, &mut self.busy);
        let ghost before = available@;
        let mut out: Vec<P> = Vec::new();
        let mut entries = available;
        assert(before == entries@);
        while entries.len() > 0
            invariant
                out@ + all_idle(entries@) == all_idle(before),
            decreases entries@.len(),
        {
            let ghost prev = entries@;
            let (_, mut v) = entries.remove(0);
            proof {
                assert(prev == seq![prev[0]] + entries@);
                lemma_all_idle_prepend(prev[0], entries@);
            }
            out.append(&mut v);
        }
        proof {
            assert(out@ + Seq::<P>::empty() == out@);
            assert(file_set(self.busy@) =~= Set::<Seq<char>>::empty());
        }
        out
    }
}

proof fn lemma_all_idle_prepend<P>(e: (String, Vec<P>), s: Seq<(String, Vec<P>)>)
    ensures
        all_idle(seq![e] + s) == e.1@ + all_idle(s),
    decreases s.len(),
{
    if s.len() > 0 {
        assert((seq![e] + s).drop_last() == seq![e] + s.drop_last());
        assert((seq![e] + s).last() == s.last());
        lemma_all_idle_prepend(e, s.drop_last());
        let t = seq![e] + s;
        assert(all_idle(t) == all_idle(t.drop_last()) + t.last().1@);
        assert(all_idle(t.drop_last()) == e.1@ + all_idle(s.drop_last()));
        assert(all_idle(s) == all_idle(s.drop_last()) + s.last().1@);
        assert(e.1@ + all_idle(s.drop_last()) + s.last().1@ == e.1@ + (all_idle(s.drop_last()) + s.last().1@));
    } else {
        assert(seq![e] + s == seq![e]);
        assert(seq![e].drop_last() == Seq::<(String, Vec<P>)>::empty());
        assert(all_idle(Seq::<(String, Vec<P>)>::empty()) == Seq::<P>::empty());
        assert(all_idle(seq![e]) == all_idle(seq![e].drop_last()) + seq![e].last().1@);
        assert(Seq::<P>::empty() + e.1@ == e.1@);
        assert(all_idle(s) == Seq::<P>::empty());
        assert(e.1@ + Seq::<P>::empty() == e.1@);
    }
}

/// A process released to the pool is the first one handed out again for its
/// file: releasing `p` onto the idle processes `idle` and then acquiring
/// gives `p` back and leaves `idle` as it was.
pub proof fn law_released_process_is_reused_first<P>(idle: Seq<P>, p: P)
    ensures
        idle.push(p).len() > 0,
        idle.push(p).last() == p,
        idle.push(p).drop_last() == idle,
{
    assert(idle.push(p).drop_last() =~= idle);
}

} // verus!

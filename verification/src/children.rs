//! The process registry: a mapping from process id to process handle, with
//! insertion, last-write-wins merging, and non-blocking reclamation driven by
//! the poll outcomes the caller observed.

use vstd::prelude::*;

verus! {

/// The registry's record of one spawned operating-system process, keyed by
/// the process id the operating system assigned at spawn time.
#[derive(PartialEq, Eq, Structural, Clone, Copy, Debug)]
pub struct ProcHandle {
    pub pid: u32,
}

/// The outcome of one non-blocking status check of a tracked process.
#[derive(PartialEq, Eq, Structural, Clone, Copy, Debug)]
pub enum PollStatus {
    /// The process is still running.
    Running,
    /// The process has exited and was waited on.
    Exited,
    /// The status query itself failed; nothing is known of the process.
    QueryFailed,
}

/// The map denoted by a sequence of handles; a later handle overwrites an
/// earlier one with the same process id.
pub open spec fn handle_map(s: Seq<ProcHandle>) -> Map<u32, ProcHandle>
    decreases s.len(),
{
    if s.len() == 0 {
        Map::empty()
    } else {
        handle_map(s.drop_last()).insert(s.last().pid, s.last())
    }
}

/// No two handles of the sequence share a process id.
pub open spec fn handles_wf(s: Seq<ProcHandle>) -> bool {
    forall|i: int, j: int| 0 <= i < j < s.len() ==> s[i].pid != s[j].pid
}

/// Whether some entry of `polls` reports the process `pid` as exited.
pub open spec fn polled_exited(polls: Seq<(u32, PollStatus)>, pid: u32) -> bool {
    exists|i: int| 0 <= i < polls.len() && polls[i].0 == pid && polls[i].1 is Exited
}

proof fn lemma_handle_map_contains(s: Seq<ProcHandle>, pid: u32)
    ensures
        handle_map(s).contains_key(pid) <==> exists|i: int| 0 <= i < s.len() && s[i].pid == pid,
    decreases s.len(),
{
    if s.len() > 0 {
        lemma_handle_map_contains(s.drop_last(), pid);
        if s.last().pid == pid {
            assert(s[s.len() - 1].pid == pid);
        } else {
            assert forall|i: int| 0 <= i < s.len() && s[i].pid == pid implies handle_map(
                s,
            ).contains_key(pid) by {
                assert(s.drop_last()[i] == s[i]);
            }
            if handle_map(s).contains_key(pid) {
                let i = choose|i: int| 0 <= i < s.drop_last().len() && s.drop_last()[i].pid == pid;
                assert(s[i].pid == pid);
            }
        }
    }
}

proof fn lemma_handle_map_index(s: Seq<ProcHandle>, i: int)
    requires
        handles_wf(s),
        0 <= i < s.len(),
    ensures
        handle_map(s).contains_key(s[i].pid),
        handle_map(s)[s[i].pid] == s[i],
    decreases s.len(),
{
    if i < s.len() - 1 {
        assert(handles_wf(s.drop_last()));
        lemma_handle_map_index(s.drop_last(), i);
        assert(s.drop_last()[i] == s[i]);
        assert(s.last().pid != s[i].pid);
    }
}

proof fn lemma_handle_map_len(s: Seq<ProcHandle>)
    requires
        handles_wf(s),
    ensures
        handle_map(s).dom().finite(),
        handle_map(s).dom().len() == s.len(),
    decreases s.len(),
{
    if s.len() > 0 {
        assert(handles_wf(s.drop_last()));
        lemma_handle_map_len(s.drop_last());
        lemma_handle_map_contains(s.drop_last(), s.last().pid);
        assert(forall|i: int| 0 <= i < s.drop_last().len() ==> s.drop_last()[i] == s[i]);
        assert(!handle_map(s.drop_last()).contains_key(s.last().pid));
        assert(handle_map(s).dom() =~= handle_map(s.drop_last()).dom().insert(s.last().pid));
    }
}

proof fn lemma_handle_map_update(s: Seq<ProcHandle>, i: int, h: ProcHandle)
    requires
        handles_wf(s),
        0 <= i < s.len(),
        s[i].pid == h.pid,
    ensures
        handles_wf(s.update(i, h)),
        handle_map(s.update(i, h)) == handle_map(s).insert(h.pid, h),
    decreases s.len(),
{
    let u = s.update(i, h);
    assert forall|x: int, y: int| 0 <= x < y < u.len() implies u[x].pid != u[y].pid by {
        assert(s[x].pid != s[y].pid);
    }
    if i == s.len() - 1 {
        assert(u.drop_last() =~= s.drop_last());
        assert(u.last() == h);
        assert(handle_map(s).insert(h.pid, h) =~= handle_map(s.drop_last()).insert(h.pid, h));
    } else {
        assert(handles_wf(s.drop_last()));
        assert(u.drop_last() =~= s.drop_last().update(i, h));
        assert(s.drop_last()[i] == s[i]);
        lemma_handle_map_update(s.drop_last(), i, h);
        assert(u.last() == s.last());
        assert(s.last().pid != h.pid);
        assert(handle_map(s.drop_last()).insert(h.pid, h).insert(s.last().pid, s.last())
            =~= handle_map(s.drop_last()).insert(s.last().pid, s.last()).insert(h.pid, h));
    }
}

/// The registry of live child processes: at most one handle per process id.
/// Iteration order over its entries is unspecified and never promised.
#[derive(Debug)]
pub struct Children {
    items: Vec<ProcHandle>,
}

impl View for Children {
    type V = Map<u32, ProcHandle>;

    closed spec fn view(&self) -> Map<u32, ProcHandle> {
        handle_map(self.items@)
    }
}

impl Children {
    /// No two tracked handles share a process id.
    pub closed spec fn wf(&self) -> bool {
        handles_wf(self.items@)
    }

    /// An empty registry.
    pub fn new() -> (c: Children)
        ensures
            c.wf(),
            c@ == Map::<u32, ProcHandle>::empty(),
    {
        Children { items: Vec::new() }
    }

    /// The number of tracked handles.
    pub fn len(&self) -> (n: usize)
        requires
            self.wf(),
        ensures
            n == self@.dom().len(),
    {
        proof {
            lemma_handle_map_len(self.items@);
        }
        self.items.len()
    }

    /// Whether no handle is tracked.
    pub fn is_empty(&self) -> (b: bool)
        requires
            self.wf(),
        ensures
            b == (self@ == Map::<u32, ProcHandle>::empty()),
    {
        proof {
            lemma_handle_map_len(self.items@);
            if self.items@.len() == 0 {
                assert(self@ =~= Map::<u32, ProcHandle>::empty());
            } else {
                lemma_handle_map_index(self.items@, 0);
            }
        }
        self.items.len() == 0
    }

    /// Whether a process with the given id is tracked.
    pub fn contains(&self, pid: u32) -> (b: bool)
        requires
            self.wf(),
        ensures
            b == self@.contains_key(pid),
    {
        proof {
            lemma_handle_map_contains(self.items@, pid);
        }
        let found = self.find_pid(pid);
        matches!(found, Some(_))
    }

    fn find_pid(&self, pid: u32) -> (r: Option<usize>)
        ensures
            match r {
                Some(i) => i < self.items@.len() && self.items@[i as int].pid == pid,
                None => forall|i: int| 0 <= i < self.items@.len() ==> self.items@[i].pid != pid,
            },
    {
        let mut i: usize = 0;
        while i < self.items.len()
            invariant
                0 <= i <= self.items@.len(),
                forall|j: int| 0 <= j < i ==> self.items@[j].pid != pid,
            decreases self.items@.len() - i,
        {
            if self.items[i].pid == pid {
                return Some(i);
            }
            i = i + 1;
        }
        None
    }

    /// Track `handle` under its process id. Returns true when the id was not
    /// tracked before; on a collision the incoming handle overwrites the old
    /// one and false signals the non-insertion to the caller.
    pub fn insert(&mut self, handle: ProcHandle) -> (fresh: bool)
        requires
            old(self).wf(),
        ensures
            final(self).wf(),
            final(self)@ == old(self)@.insert(handle.pid, handle),
            fresh == !old(self)@.contains_key(handle.pid),
    {
        proof {
            lemma_handle_map_contains(self.items@, handle.pid);
        }
        let found = self.find_pid(handle.pid);
        match found {
            Some(i) => {
                proof {
                    lemma_handle_map_update(self.items@, i as int, handle);
                }
                self.items.set(i, handle);
                false
            },
            None => {
                proof {
                    let s = self.items@;
                    assert(s.push(handle).drop_last() =~= s);
                    assert forall|x: int, y: int|
                        0 <= x < y < s.push(handle).len() implies s.push(handle)[x].pid != s.push(
                        handle,
                    )[y].pid by {
                        if y < s.len() {
                            assert(s[x].pid != s[y].pid);
                        }
                    }
                }
                self.items.push(handle);
                true
            },
        }
    }

    /// Absorb every entry of `other`; on a process-id collision the incoming
    /// entry wins.
    pub fn merge(&mut self, other: Children)
        requires
            old(self).wf(),
            other.wf(),
        ensures
            final(self).wf(),
            final(self)@ == old(self)@.union_prefer_right(other@),
    {
        let ghost start = self@;
        let ghost os = other.items@;
        proof {
            assert(start.union_prefer_right(handle_map(os.take(0)))
                =~= start.union_prefer_right(Map::empty()));
            assert(start.union_prefer_right(Map::empty()) =~= start);
        }
        let mut i: usize = 0;
        let items = other.items;
        while i < items.len()
            invariant
                0 <= i <= os.len(),
                items@ == os,
                self.wf(),
                self@ == start.union_prefer_right(handle_map(os.take(i as int))),
            decreases os.len() - i,
        {
            let h = items[i];
            self.insert(h);
            proof {
                assert(os.take(i + 1).drop_last() =~= os.take(i as int));
                assert(os.take(i + 1).last() == h);
                assert(handle_map(os.take(i + 1)) == handle_map(os.take(i as int)).insert(
                    h.pid,
                    h,
                ));
                assert(start.union_prefer_right(handle_map(os.take(i + 1)))
                    =~= start.union_prefer_right(handle_map(os.take(i as int))).insert(h.pid, h));
            }
            i = i + 1;
        }
        proof {
            assert(os.take(os.len() as int) =~= os);
        }
    }

    /// Absorb the given handles one by one; of two handles with the same
    /// process id the later one wins, and an incoming handle overwrites a
    /// tracked one under the same id.
    pub fn extend_with(&mut self, handles: Vec<ProcHandle>)
        requires
            old(self).wf(),
        ensures
            final(self).wf(),
            final(self)@ == old(self)@.union_prefer_right(handle_map(handles@)),
    {
        let more = Children::from_handles(handles);
        self.merge(more);
    }

    /// The registry holding the given handles; of two handles with the same
    /// process id the later one wins.
    pub fn from_handles(handles: Vec<ProcHandle>) -> (c: Children)
        ensures
            c.wf(),
            c@ == handle_map(handles@),
    {
        let mut c = Children::new();
        let mut i: usize = 0;
        proof {
            assert(handles@.take(0) =~= Seq::<ProcHandle>::empty());
        }
        while i < handles.len()
            invariant
                0 <= i <= handles@.len(),
                c.wf(),
                c@ == handle_map(handles@.take(i as int)),
            decreases handles@.len() - i,
        {
            let h = handles[i];
            c.insert(h);
            proof {
                assert(handles@.take(i + 1).drop_last() =~= handles@.take(i as int));
                assert(handles@.take(i + 1).last() == h);
            }
            i = i + 1;
        }
        proof {
            assert(handles@.take(handles@.len() as int) =~= handles@);
        }
        c
    }

    fn polls_report_exit(polls: &Vec<(u32, PollStatus)>, pid: u32) -> (b: bool)
        ensures
            b == polled_exited(polls@, pid),
    {
        let mut i: usize = 0;
        while i < polls.len()
            invariant
                0 <= i <= polls@.len(),
                forall|j: int| 0 <= j < i ==> !(polls@[j].0 == pid && polls@[j].1 is Exited),
            decreases polls@.len() - i,
        {
            let (p, st) = polls[i];
            if p == pid && matches!(st, PollStatus::Exited) {
                proof {
                    assert(polls@[i as int].0 == pid && polls@[i as int].1 is Exited);
                }
                return true;
            }
            i = i + 1;
        }
        false
    }

    /// Reclaim exited processes: a tracked handle whose process some entry of
    /// `polls` reports as exited is removed; every other handle — still
    /// running, status query failed, or not polled at all — is retained.
    pub fn reap(&mut self, polls: &Vec<(u32, PollStatus)>)
        requires
            old(self).wf(),
        ensures
            final(self).wf(),
            forall|pid: u32|
                final(self)@.contains_key(pid) <==> (old(self)@.contains_key(pid)
                    && !polled_exited(polls@, pid)),
            forall|pid: u32|
                final(self)@.contains_key(pid) ==> final(self)@[pid] == old(self)@[pid],
    {
        let ghost s = self.items@;
        let mut kept: Vec<ProcHandle> = Vec::new();
        proof {
            assert(s.take(0) =~= Seq::<ProcHandle>::empty());
        }
        let mut i: usize = 0;
        while i < self.items.len()
            invariant
                0 <= i <= s.len(),
                self.items@ == s,
                handles_wf(s),
                handles_wf(kept@),
                forall|pid: u32|
                    #[trigger] handle_map(kept@).contains_key(pid) <==> (handle_map(
                        s.take(i as int),
                    ).contains_key(pid) && !polled_exited(polls@, pid)),
                forall|pid: u32|
                    handle_map(kept@).contains_key(pid) ==> #[trigger] handle_map(kept@)[pid]
                        == handle_map(s)[pid],
            decreases s.len() - i,
        {
            let h = self.items[i];
            let ghost kept0 = kept@;
            proof {
                assert(s.take(i + 1).drop_last() =~= s.take(i as int));
                assert(s.take(i + 1).last() == s[i as int]);
                lemma_handle_map_contains(s.take(i as int), h.pid);
                assert forall|x: int| 0 <= x < i implies s.take(i as int)[x].pid != h.pid by {
                    assert(s[x].pid != s[i as int].pid);
                }
                assert(!handle_map(s.take(i as int)).contains_key(h.pid));
                lemma_handle_map_index(s, i as int);
            }
            if !Self::polls_report_exit(polls, h.pid) {
                proof {
                    lemma_handle_map_contains(kept0, h.pid);
                    assert(!handle_map(kept0).contains_key(h.pid));
                }
                kept.push(h);
                proof {
                    assert(kept@.drop_last() =~= kept0);
                    assert(kept@.last() == h);
                    assert(handle_map(kept@) == handle_map(kept0).insert(h.pid, h));
                    assert forall|x: int, y: int|
                        0 <= x < y < kept@.len() implies kept@[x].pid != kept@[y].pid by {
                        if y < kept0.len() {
                            assert(kept0[x].pid != kept0[y].pid);
                        } else {
                            assert(kept@[y] == h);
                            if kept@[x].pid == h.pid {
                                assert(kept0[x].pid == h.pid);
                                assert(handle_map(kept0).contains_key(h.pid)) by {
                                    lemma_handle_map_index(kept0, x);
                                };
                            }
                        }
                    }
                    assert forall|pid: u32|
                        #[trigger] handle_map(kept@).contains_key(pid) <==> (handle_map(
                            s.take(i + 1),
                        ).contains_key(pid) && !polled_exited(polls@, pid)) by {
                        assert(handle_map(s.take(i + 1)) == handle_map(s.take(i as int)).insert(
                            h.pid,
                            h,
                        ));
                    }
                    assert forall|pid: u32|
                        handle_map(kept@).contains_key(pid) implies #[trigger] handle_map(
                        kept@,
                    )[pid] == handle_map(s)[pid] by {
                        if pid == h.pid {
                            assert(handle_map(kept@)[pid] == h);
                            assert(handle_map(s)[h.pid] == s[i as int]);
                        } else {
                            assert(handle_map(kept0).contains_key(pid));
                        }
                    }
                }
            } else {
                proof {
                    assert(handle_map(s.take(i + 1)) == handle_map(s.take(i as int)).insert(
                        h.pid,
                        h,
                    ));
                    assert(polled_exited(polls@, h.pid));
                    assert forall|pid: u32|
                        #[trigger] handle_map(kept@).contains_key(pid) <==> (handle_map(
                            s.take(i + 1),
                        ).contains_key(pid) && !polled_exited(polls@, pid)) by {
                        if pid != h.pid {
                            assert(handle_map(s.take(i + 1)).contains_key(pid) == handle_map(
                                s.take(i as int),
                            ).contains_key(pid));
                        }
                    }
                }
            }
            i = i + 1;
        }
        proof {
            assert(s.take(s.len() as int) =~= s);
        }
        self.items = kept;
    }
}

} // verus!

use vstd::prelude::*;

verus! {

/// The timestamp recorded for a path, or `None` if no event for that path was
/// ever accepted.
pub open spec fn last_accepted(entries: Seq<(String, u64)>, path: Seq<char>) -> Option<u64>
    decreases entries.len(),
{
    if entries.len() == 0 {
        None
    } else if entries[0].0@ == path {
        Some(entries[0].1)
    } else {
        last_accepted(entries.drop_first(), path)
    }
}

/// Time elapsed since a recorded timestamp, saturating at zero if the clock
/// reads earlier than the record.
pub open spec fn elapsed_since(last: u64, now: u64) -> u64 {
    if now >= last {
        (now - last) as u64
    } else {
        0u64
    }
}

/// Whether an event for `path` at time `now` is accepted: no event for that
/// path was accepted before, or at least `window` milliseconds have passed
/// since the last accepted one.
pub open spec fn spec_accepts(
    entries: Seq<(String, u64)>,
    path: Seq<char>,
    now: u64,
    window: u64,
) -> bool {
    match last_accepted(entries, path) {
        None => true,
        Some(last) => elapsed_since(last, now) >= window,
    }
}

/// Per-path debounce bookkeeping: for each path with an accepted change
/// event, the time of the last accepted one.
#[derive(Debug)]
pub struct DebounceMap {
    pub entries: Vec<(String, u64)>,
}

impl DebounceMap {
    /// Keys are pairwise distinct, so each path has one record.
    pub open spec fn wf(&self) -> bool {
        forall|i: int, j: int|
            0 <= i < j < self.entries@.len() ==> self.entries@[i].0@ != self.entries@[j].0@
    }

    /// An empty map: no path has an accepted event yet.
    pub fn new() -> (r: DebounceMap)
        ensures
            r.wf(),
            r.entries@.len() == 0,
    {
        DebounceMap { entries: Vec::new() }
    }

    /// Records an incoming change event for `path` at time `now`: returns
    /// whether it is accepted, and on acceptance records `now` as the path's
    /// last accepted time. A suppressed event changes nothing.
    pub fn note_event(&mut self, path: &String, now: u64, window: u64) -> (accepted: bool)
        requires
            old(self).wf(),
        ensures
            final(self).wf(),
            accepted == spec_accepts(old(self).entries@, path@, now, window),
            accepted ==> last_accepted(final(self).entries@, path@) == Some(now),
            accepted ==> forall|p: Seq<char>|
                p != path@ ==> last_accepted(final(self).entries@, p) == last_accepted(
                    old(self).entries@,
                    p,
                ),
            !accepted ==> final(self).entries@ == old(self).entries@,
    {
        let ghost entries0 = self.entries@;
        let n: usize = self.entries.len();
        let mut i: usize = 0;
        while i < n
            invariant
                n == self.entries@.len(),
                i <= n,
                self.entries@ == entries0,
                entries0 == old(self).entries@,
                old(self).wf(),
                forall|k: int| 0 <= k < i ==> self.entries@[k].0@ != path@,
            decreases n - i,
        {
            if self.entries[i].0.eq(path) {
                proof {
                    lemma_last_accepted_at(entries0, path@, i as int);
                }
                let last: u64 = self.entries[i].1;
                let elapsed: u64 = if now >= last {
                    now - last
                } else {
                    0
                };
                if elapsed < window {
                    return false;
                }
                let key = self.entries[i].0.clone();
                self.entries.set(i, (key, now));
                proof {
                    lemma_last_accepted_update(entries0, self.entries@, path@, i as int, now);
                }
                return true;
            }
            i += 1;
        }
        proof {
            lemma_last_accepted_absent(entries0, path@);
        }
        self.entries.push((path.clone(), now));
        proof {
            lemma_last_accepted_push(entries0, path@, now);
        }
        true
    }
}

/// If the first record for `path` stands at index `i`, `last_accepted` reads
/// its timestamp.
proof fn lemma_last_accepted_at(entries: Seq<(String, u64)>, path: Seq<char>, i: int)
    requires
        0 <= i < entries.len(),
        entries[i].0@ == path,
        forall|k: int| 0 <= k < i ==> entries[k].0@ != path,
    ensures
        last_accepted(entries, path) == Some(entries[i].1),
    decreases i,
{
    if i == 0 {
    } else {
        assert(entries[0].0@ != path);
        let t = entries.drop_first();
        assert forall|k: int| 0 <= k < i - 1 implies t[k].0@ != path by {
            assert(t[k] == entries[k + 1]);
        }
        assert(t[i - 1] == entries[i]);
        lemma_last_accepted_at(t, path, i - 1);
    }
}

/// If no record holds `path`, `last_accepted` is `None`.
proof fn lemma_last_accepted_absent(entries: Seq<(String, u64)>, path: Seq<char>)
    requires
        forall|k: int| 0 <= k < entries.len() ==> entries[k].0@ != path,
    ensures
        last_accepted(entries, path) is None,
    decreases entries.len(),
{
    if entries.len() > 0 {
        let t = entries.drop_first();
        assert forall|k: int| 0 <= k < t.len() implies t[k].0@ != path by {
            assert(t[k] == entries[k + 1]);
        }
        lemma_last_accepted_absent(t, path);
    }
}

/// Updating the record at the index holding `path` moves that path's
/// timestamp to `now` and leaves every other path's record unchanged.
proof fn lemma_last_accepted_update(
    entries: Seq<(String, u64)>,
    updated: Seq<(String, u64)>,
    path: Seq<char>,
    i: int,
    now: u64,
)
    requires
        0 <= i < entries.len(),
        entries[i].0@ == path,
        forall|k: int| 0 <= k < i ==> entries[k].0@ != path,
        updated.len() == entries.len(),
        updated[i].0@ == path,
        updated[i].1 == now,
        forall|k: int| 0 <= k < entries.len() && k != i ==> updated[k] == entries[k],
    ensures
        last_accepted(updated, path) == Some(now),
        forall|p: Seq<char>|
            p != path ==> last_accepted(updated, p) == last_accepted(entries, p),
    decreases i,
{
    assert forall|k: int| 0 <= k < i implies updated[k].0@ != path by {
        assert(updated[k] == entries[k]);
    }
    lemma_last_accepted_at(updated, path, i);
    assert forall|p: Seq<char>|
        p != path implies last_accepted(updated, p) == last_accepted(entries, p) by {
        lemma_last_accepted_other(entries, updated, p, i);
    }
}

/// A change confined to index `i` does not touch the record of a path that
/// index `i` does not hold.
proof fn lemma_last_accepted_other(
    entries: Seq<(String, u64)>,
    updated: Seq<(String, u64)>,
    p: Seq<char>,
    i: int,
)
    requires
        0 <= i < entries.len(),
        updated.len() == entries.len(),
        entries[i].0@ != p,
        updated[i].0@ != p,
        forall|k: int| 0 <= k < entries.len() && k != i ==> updated[k] == entries[k],
    ensures
        last_accepted(updated, p) == last_accepted(entries, p),
    decreases entries.len(),
{
    if i == 0 {
        assert(updated.drop_first() =~= entries.drop_first());
    } else {
        assert(updated[0] == entries[0]);
        if entries[0].0@ == p {
        } else {
            let t1 = entries.drop_first();
            let t2 = updated.drop_first();
            assert forall|k: int| 0 <= k < t1.len() && k != i - 1 implies t2[k] == t1[k] by {
                assert(t1[k] == entries[k + 1]);
                assert(t2[k] == updated[k + 1]);
            }
            assert(t1[i - 1] == entries[i]);
            assert(t2[i - 1] == updated[i]);
            lemma_last_accepted_other(t1, t2, p, i - 1);
        }
    }
}

/// Appending a record for a path with no prior record gives that path the new
/// timestamp and leaves every other path's record unchanged.
proof fn lemma_last_accepted_push(entries: Seq<(String, u64)>, path: Seq<char>, now: u64)
    requires
        forall|k: int| 0 <= k < entries.len() ==> entries[k].0@ != path,
    ensures
        forall|rec: (String, u64)|
            rec.0@ == path && rec.1 == now ==> last_accepted(entries.push(rec), path) == Some(now)
                && (forall|p: Seq<char>|
                p != path ==> last_accepted(entries.push(rec), p) == last_accepted(entries, p)),
{
    assert forall|rec: (String, u64)|
        rec.0@ == path && rec.1 == now implies last_accepted(entries.push(rec), path) == Some(now)
        && (forall|p: Seq<char>|
        p != path ==> last_accepted(entries.push(rec), p) == last_accepted(entries, p)) by {
        let e2 = entries.push(rec);
        assert(e2[entries.len() as int] == rec);
        assert forall|k: int| 0 <= k < entries.len() implies e2[k] == entries[k] by {}
        lemma_last_accepted_at(e2, path, entries.len() as int);
        assert forall|p: Seq<char>|
            p != path implies last_accepted(e2, p) == last_accepted(entries, p) by {
            lemma_last_accepted_snoc_other(entries, rec, p);
        }
    }
}

/// Appending a record does not touch the reading for any other path.
proof fn lemma_last_accepted_snoc_other(entries: Seq<(String, u64)>, rec: (String, u64), p: Seq<char>)
    requires
        rec.0@ != p,
    ensures
        last_accepted(entries.push(rec), p) == last_accepted(entries, p),
    decreases entries.len(),
{
    let e2 = entries.push(rec);
    if entries.len() == 0 {
        assert(e2[0] == rec);
        assert(e2.drop_first() =~= Seq::<(String, u64)>::empty());
    } else {
        assert(e2[0] == entries[0]);
        if entries[0].0@ == p {
        } else {
            assert(e2.drop_first() =~= entries.drop_first().push(rec));
            lemma_last_accepted_snoc_other(entries.drop_first(), rec, p);
        }
    }
}


/// The debounce policy over two successive events for one path, starting
/// from a state with no record for it: the first event is accepted, and an
/// event arriving `t2 - t1` after the first accepted one is accepted exactly
/// when that gap reaches the window. Closer together, only the first causes a
/// pass; spaced at or beyond the window, both do.
pub proof fn lemma_debounce_suppression(
    entries: Seq<(String, u64)>,
    entries1: Seq<(String, u64)>,
    path: Seq<char>,
    t1: u64,
    t2: u64,
    window: u64,
)
    requires
        last_accepted(entries, path) is None,
        last_accepted(entries1, path) == Some(t1),
        t1 <= t2,
    ensures
        spec_accepts(entries, path, t1, window),
        spec_accepts(entries1, path, t2, window) <==> t2 - t1 >= window,
{
}

} // verus!

use vstd::prelude::*;

use crate::debounce::{DebounceMap, last_accepted, spec_accepts};
use crate::filters::{Filter, FilterSpec, ListFilter, Status};
use crate::lines::spec_lines;
use crate::reprocess::{LogCS2, all_entries, views_of};

verus! {

/// Whether `c` is the toggle key of filter `f`: the first character of the
/// filter's `key_code`.
pub open spec fn key_matches(f: FilterSpec, c: char) -> bool {
    f.key_code.len() > 0 && f.key_code[0] == c
}

/// Whether some filter of the registry has `c` as its toggle key.
pub open spec fn some_key_matches(fs: Seq<FilterSpec>, c: char) -> bool {
    exists|j: int| 0 <= j < fs.len() && key_matches(fs[j], c)
}

/// Every filter has a non-empty `key_code`.
pub open spec fn all_keys_nonempty(fs: Seq<FilterSpec>) -> bool {
    forall|i: int| 0 <= i < fs.len() ==> fs[i].key_code.len() > 0
}

/// No two filters share a toggle key.
pub open spec fn keys_distinct(fs: Seq<FilterSpec>) -> bool {
    forall|i: int, j: int|
        0 <= i < j < fs.len() ==> fs[i].key_code[0] != fs[j].key_code[0]
}

/// A valid registry: every toggle key exists and they are pairwise distinct.
pub open spec fn keys_valid(fs: Seq<FilterSpec>) -> bool {
    all_keys_nonempty(fs) && keys_distinct(fs)
}

/// Why a loaded registry was rejected.
#[derive(Debug, Clone, Copy, PartialEq, Eq, Structural)]
pub enum ConfigError {
    /// Some filter's `key_code` is empty, so it has no toggle key.
    EmptyKeyCode,
    /// Two filters share the same toggle key.
    DuplicateKey,
}

/// What a key press asks of the application loop.
#[derive(Debug, Clone, Copy, PartialEq, Eq, Structural)]
pub enum KeyAction {
    /// A filter was toggled and the entries were cleared: run a full
    /// reprocessing pass now.
    Toggled,
    /// The quit key: leave the loop.
    Quit,
    /// A key bound to nothing: no effect.
    Ignored,
}

/// All state the application loop owns: the filter registry, the displayed
/// entries, the exit flag and the debounce bookkeeping.
#[derive(Debug)]
pub struct App {
    pub filters: Vec<Filter>,
    pub exit: bool,
    pub logs: Vec<LogCS2>,
    pub file_path: String,
    pub file_filters_path: String,
    pub last_events: DebounceMap,
    pub debounce_duration: u64,
    pub scroll: u16,
}

impl App {
    /// Well-formed application state: a valid registry, a consistent debounce
    /// map, and a scroll position inside its cycle.
    pub open spec fn wf(&self) -> bool {
        &&& keys_valid(views_of(self.filters@))
        &&& self.last_events.wf()
        &&& self.scroll < 10
    }
}

impl Default for App {
    /// The initial state: no filters, no entries, not exiting, the default
    /// paths, an empty debounce map and the default debounce window.
    fn default() -> (r: App)
        ensures
            r.wf(),
            r.filters@.len() == 0,
            !r.exit,
            r.logs@.len() == 0,
            r.file_path@ == "../cs2server.log"@,
            r.file_filters_path@ == "src/filters.json"@,
            r.last_events.entries@.len() == 0,
            r.debounce_duration == crate::DEBOUNCE_MS,
            r.scroll == 0,
    {
        App {
            filters: Vec::new(),
            exit: false,
            logs: Vec::new(),
            file_path: "../cs2server.log".to_owned(),
            file_filters_path: "src/filters.json".to_owned(),
            last_events: DebounceMap::new(),
            debounce_duration: crate::DEBOUNCE_MS,
            scroll: 0,
        }
    }
}

/// The toggle key of a filter: the first character of its `key_code`.
fn first_key(f: &Filter) -> (c: char)
    requires
        f@.key_code.len() > 0,
    ensures
        c == f@.key_code[0],
{
    f.key_code.as_str().get_char(0)
}

/// Checks a combined registry `a ++ b`: every `key_code` non-empty, toggle
/// keys pairwise distinct. Returns the violation found, if any.
fn check_keys(a: &Vec<Filter>, b: &Vec<Filter>) -> (r: Option<ConfigError>)
    requires
        a@.len() + b@.len() <= usize::MAX,
    ensures
        r is None <==> keys_valid(views_of(a@ + b@)),
        r matches Some(e) ==> if !all_keys_nonempty(views_of(a@ + b@)) {
            e == ConfigError::EmptyKeyCode
        } else {
            e == ConfigError::DuplicateKey
        },
{
    let ghost cs = views_of(a@ + b@);
    let n1: usize = a.len();
    let n: usize = a.len() + b.len();
    proof {
        assert(cs.len() == n);
        assert forall|k: int| 0 <= k < n1 implies cs[k] == a@[k]@ by {
            assert((a@ + b@)[k] == a@[k]);
        }
        assert forall|k: int| n1 <= k < n implies cs[k] == b@[k - n1]@ by {
            assert((a@ + b@)[k] == b@[k - n1]);
        }
    }
    let mut i: usize = 0;
    while i < n
        invariant
            n1 == a@.len(),
            n == a@.len() + b@.len(),
            cs == views_of(a@ + b@),
            forall|k: int| 0 <= k < n1 ==> cs[k] == a@[k]@,
            forall|k: int| n1 <= k < n ==> cs[k] == b@[k - n1]@,
            i <= n,
            forall|k: int| 0 <= k < i ==> cs[k].key_code.len() > 0,
        decreases n - i,
    {
        let f: &Filter = if i < n1 {
            &a[i]
        } else {
            &b[i - n1]
        };
        if f.key_code.as_str().unicode_len() == 0 {
            proof {
                assert(f@ == cs[i as int]);
                assert(!all_keys_nonempty(cs));
            }
            return Some(ConfigError::EmptyKeyCode);
        }
        i += 1;
    }
    let mut i: usize = 0;
    while i < n
        invariant
            n1 == a@.len(),
            n == a@.len() + b@.len(),
            cs == views_of(a@ + b@),
            forall|k: int| 0 <= k < n1 ==> cs[k] == a@[k]@,
            forall|k: int| n1 <= k < n ==> cs[k] == b@[k - n1]@,
            all_keys_nonempty(cs),
            i <= n,
            forall|p: int, q: int| 0 <= p < q < n && p < i ==> cs[p].key_code[0] != cs[q].key_code[0],
        decreases n - i,
    {
        let fi: &Filter = if i < n1 {
            &a[i]
        } else {
            &b[i - n1]
        };
        proof {
            assert(fi@ == cs[i as int]);
            assert(all_keys_nonempty(cs));
        }
        let ci: char = first_key(fi);
        let mut j: usize = i + 1;
        while j < n
            invariant
                n1 == a@.len(),
                n == a@.len() + b@.len(),
                cs == views_of(a@ + b@),
                forall|k: int| 0 <= k < n1 ==> cs[k] == a@[k]@,
                forall|k: int| n1 <= k < n ==> cs[k] == b@[k - n1]@,
                all_keys_nonempty(cs),
                i < j <= n,
                i < n,
                ci == cs[i as int].key_code[0],
                forall|q: int| i < q < j ==> cs[i as int].key_code[0] != cs[q].key_code[0],
            decreases n - j,
        {
            let fj: &Filter = if j < n1 {
                &a[j]
            } else {
                &b[j - n1]
            };
            proof {
                assert(fj@ == cs[j as int]);
            }
            let cj: char = first_key(fj);
            if ci == cj {
                proof {
                    assert(cs[i as int].key_code[0] == cs[j as int].key_code[0]);
                    assert(!keys_distinct(cs));
                }
                return Some(ConfigError::DuplicateKey);
            }
            j += 1;
        }
        i += 1;
    }
    None
}

impl App {
    /// Installs the loaded registry by appending its filters, after
    /// validating that the combined registry's toggle keys are usable: every
    /// `key_code` non-empty and first characters pairwise distinct. A
    /// violation is a configuration error and leaves the state unchanged.
    pub fn init_filters(&mut self, list: ListFilter) -> (r: Result<(), ConfigError>)
        requires
            old(self).wf(),
            old(self).filters@.len() + list.filters@.len() <= usize::MAX,
        ensures
            final(self).wf(),
            r is Ok <==> keys_valid(views_of(old(self).filters@ + list.filters@)),
            r matches Err(e) ==> if !all_keys_nonempty(views_of(old(self).filters@ + list.filters@)) {
                e == ConfigError::EmptyKeyCode
            } else {
                e == ConfigError::DuplicateKey
            },
            r is Ok ==> final(self).filters@ == old(self).filters@ + list.filters@,
            r is Err ==> final(self).filters@ == old(self).filters@,
            final(self).exit == old(self).exit,
            final(self).logs@ == old(self).logs@,
            final(self).file_path@ == old(self).file_path@,
            final(self).file_filters_path@ == old(self).file_filters_path@,
            final(self).last_events == old(self).last_events,
            final(self).debounce_duration == old(self).debounce_duration,
            final(self).scroll == old(self).scroll,
    {
        match check_keys(&self.filters, &list.filters) {
            Some(e) => Err(e),
            None => {
                let ghost filters0 = self.filters@;
                let ghost incoming = list.filters@;
                let mut rest = list.filters;
                let total: usize = rest.len();
                let mut taken: usize = 0;
                while rest.len() > 0
                    invariant
                        old(self).wf(),
                        total == incoming.len(),
                        taken + rest@.len() == total,
                        filters0 == old(self).filters@,
                        self.filters@ == filters0 + incoming.take(taken as int),
                        rest@ == incoming.skip(taken as int),
                        self.exit == old(self).exit,
                        self.logs@ == old(self).logs@,
                        self.file_path@ == old(self).file_path@,
                        self.file_filters_path@ == old(self).file_filters_path@,
                        self.last_events == old(self).last_events,
                        self.debounce_duration == old(self).debounce_duration,
                        self.scroll == old(self).scroll,
                    decreases rest@.len(),
                {
                    let f = rest.remove(0);
                    self.filters.push(f);
                    taken += 1;
                    proof {
                        assert(self.filters@ =~= filters0 + incoming.take(taken as int));
                        assert(rest@ =~= incoming.skip(taken as int));
                    }
                }
                proof {
                    assert(incoming.take(total as int) =~= incoming);
                    assert(keys_valid(views_of(filters0 + incoming)));
                    assert(self.filters@ == filters0 + incoming);
                }
                Ok(())
            },
        }
    }

    /// Handles one pressed character. If it is some filter's toggle key, that
    /// filter's on/off state flips and the entries are cleared at once, so a
    /// stale entry is never shown; the caller must then run a reprocessing
    /// pass. Otherwise the quit key requests exit, and any other key does
    /// nothing.
    pub fn handle_key(&mut self, c: char) -> (r: KeyAction)
        requires
            old(self).wf(),
        ensures
            final(self).wf(),
            some_key_matches(views_of(old(self).filters@), c) ==> {
                &&& r == KeyAction::Toggled
                &&& final(self).logs@.len() == 0
                &&& final(self).exit == old(self).exit
                &&& forall|j: int|
                    0 <= j < old(self).filters@.len() && key_matches(old(self).filters@[j]@, c)
                        ==> views_of(final(self).filters@) == views_of(old(self).filters@).update(
                        j,
                        (FilterSpec { is_on: !old(self).filters@[j]@.is_on, ..old(self).filters@[j]@ }),
                    )
            },
            !some_key_matches(views_of(old(self).filters@), c) && c == 'q' ==> {
                &&& r == KeyAction::Quit
                &&& final(self).exit
                &&& final(self).filters@ == old(self).filters@
                &&& final(self).logs@ == old(self).logs@
            },
            !some_key_matches(views_of(old(self).filters@), c) && c != 'q' ==> {
                &&& r == KeyAction::Ignored
                &&& final(self).exit == old(self).exit
                &&& final(self).filters@ == old(self).filters@
                &&& final(self).logs@ == old(self).logs@
            },
            final(self).file_path@ == old(self).file_path@,
            final(self).file_filters_path@ == old(self).file_filters_path@,
            final(self).last_events == old(self).last_events,
            final(self).debounce_duration == old(self).debounce_duration,
            final(self).scroll == old(self).scroll,
    {
        let ghost fs0 = views_of(old(self).filters@);
        let n: usize = self.filters.len();
        let mut i: usize = 0;
        while i < n
            invariant
                old(self).wf(),
                n == self.filters@.len(),
                i <= n,
                self == old(self),
                fs0 == views_of(self.filters@),
                forall|k: int| 0 <= k < i ==> !key_matches(fs0[k], c),
            decreases n - i,
        {
            proof {
                assert(fs0[i as int] == self.filters@[i as int]@);
                assert(fs0[i as int].key_code.len() > 0);
            }
            let ck: char = first_key(&self.filters[i]);
            if ck == c {
                let mut f = self.filters.remove(i);
                f.toggle();
                self.filters.insert(i, f);
                self.logs.clear();
                proof {
                    assert(key_matches(fs0[i as int], c));
                    let fsn = views_of(self.filters@);
                    assert(fsn =~= fs0.update(
                        i as int,
                        (FilterSpec { is_on: !fs0[i as int].is_on, ..fs0[i as int] }),
                    ));
                    assert forall|j: int|
                        0 <= j < fs0.len() && key_matches(fs0[j], c) implies j == i as int by {
                        assert(keys_distinct(fs0));
                        if j < i as int {
                            assert(fs0[j].key_code[0] != fs0[i as int].key_code[0]);
                        } else if j > i as int {
                            assert(fs0[i as int].key_code[0] != fs0[j].key_code[0]);
                        }
                    }
                    assert(keys_valid(fsn));
                    assert(some_key_matches(fs0, c));
                    assert forall|j: int|
                        0 <= j < old(self).filters@.len() && key_matches(old(self).filters@[j]@, c)
                        implies views_of(self.filters@) == views_of(old(self).filters@).update(
                        j,
                        (FilterSpec {
                            is_on: !old(self).filters@[j]@.is_on,
                            ..old(self).filters@[j]@
                        }),
                    ) by {
                        assert(fs0[j] == old(self).filters@[j]@);
                        assert(key_matches(fs0[j], c));
                        assert(j == i as int);
                    }
                }
                return KeyAction::Toggled;
            }
            i += 1;
        }
        proof {
            assert forall|j: int|
                0 <= j < fs0.len() implies !key_matches(fs0[j], c) by {}
            assert(!some_key_matches(fs0, c));
        }
        if c == 'q' {
            self.exit = true;
            return KeyAction::Quit;
        }
        KeyAction::Ignored
    }

    /// Replaces the displayed entries with the output of one full
    /// reprocessing pass over the given file contents.
    pub fn reprocess(&mut self, contents: &str)
        requires
            old(self).wf(),
        ensures
            final(self).wf(),
            final(self).logs@.map_values(|e: LogCS2| e@) == all_entries(
                views_of(old(self).filters@),
                spec_lines(contents@),
            ),
            final(self).filters@ == old(self).filters@,
            final(self).exit == old(self).exit,
            final(self).file_path@ == old(self).file_path@,
            final(self).file_filters_path@ == old(self).file_filters_path@,
            final(self).last_events == old(self).last_events,
            final(self).debounce_duration == old(self).debounce_duration,
            final(self).scroll == old(self).scroll,
    {
        let new_logs = crate::reprocess::reprocess(&self.filters, contents);
        self.logs = new_logs;
    }

    /// Records one change event for `path` read off the notifier queue at
    /// time `now_ms`: returns whether the event is accepted under the
    /// debounce policy, recording the time if so. The caller runs a
    /// reprocessing pass exactly when the event is accepted.
    pub fn note_change_event(&mut self, path: &String, now_ms: u64) -> (accepted: bool)
        requires
            old(self).wf(),
        ensures
            final(self).wf(),
            accepted == spec_accepts(
                old(self).last_events.entries@,
                path@,
                now_ms,
                old(self).debounce_duration,
            ),
            accepted ==> last_accepted(final(self).last_events.entries@, path@) == Some(now_ms),
            accepted ==> forall|p: Seq<char>|
                p != path@ ==> last_accepted(final(self).last_events.entries@, p) == last_accepted(
                    old(self).last_events.entries@,
                    p,
                ),
            !accepted ==> final(self).last_events.entries@ == old(self).last_events.entries@,
            final(self).filters@ == old(self).filters@,
            final(self).logs@ == old(self).logs@,
            final(self).exit == old(self).exit,
            final(self).file_path@ == old(self).file_path@,
            final(self).file_filters_path@ == old(self).file_filters_path@,
            final(self).debounce_duration == old(self).debounce_duration,
            final(self).scroll == old(self).scroll,
    {
        let window: u64 = self.debounce_duration;
        self.last_events.note_event(path, now_ms, window)
    }

    /// Appends a visible Error-classified entry, bypassing the normal
    /// reprocessing cycle: how a per-event watcher failure is surfaced
    /// without aborting.
    pub fn push_error(&mut self, message: String)
        requires
            old(self).wf(),
        ensures
            final(self).wf(),
            final(self).logs@.len() == old(self).logs@.len() + 1,
            final(self).logs@ == old(self).logs@.push(
                (LogCS2 { value: message, status: Status::Error }),
            ),
            final(self).filters@ == old(self).filters@,
            final(self).exit == old(self).exit,
            final(self).file_path@ == old(self).file_path@,
            final(self).file_filters_path@ == old(self).file_filters_path@,
            final(self).last_events == old(self).last_events,
            final(self).debounce_duration == old(self).debounce_duration,
            final(self).scroll == old(self).scroll,
    {
        self.logs.push(LogCS2 { value: message, status: Status::Error });
    }

    /// Advances the scroll position one step around its ten-step cycle.
    pub fn on_tick(&mut self)
        requires
            old(self).wf(),
        ensures
            final(self).wf(),
            final(self).scroll == (old(self).scroll + 1) % 10,
            *final(self) == (App { scroll: final(self).scroll, ..*old(self) }),
    {
        self.scroll = (self.scroll + 1) % 10;
    }

    /// Requests that the application loop terminate.
    pub fn exit(&mut self)
        requires
            old(self).wf(),
        ensures
            final(self).wf(),
            final(self).exit,
            *final(self) == (App { exit: true, ..*old(self) }),
    {
        self.exit = true;
    }
}

} // verus!

//! The response cache: one remembered outcome per hostname, held in
//! memory and mirrored by one file per hostname under a base directory.
//!
//! Disk is the durable truth and is the caller's side: this type decides
//! what must be read, written or deleted, and keeps the in-memory layer
//! consistent. `get` answers from memory or asks for a disk read, whose
//! result comes back through `load_from_disk`; `put` says whether a file
//! write is owed and with what bytes; `clear` forgets an entry whose file
//! the caller deletes; `check_disk_changes` drains the watcher's
//! notifications and drops the whole in-memory layer when anything else
//! touched the directory, so a stale entry is never served.

use vstd::prelude::*;

use crate::ddns::DdnsResult;
use crate::ddns::OutcomeView;
use crate::ddns::spec_format_outcome;
use crate::ddns::spec_parse_outcome;
use crate::ip_cache::cache_file_path;

verus! {

/// What one hostname's remembered state is worth: the outcome's value
/// and the timestamp it was recorded at, in seconds.
pub type EntryView = (OutcomeView, u64);

/// A change notification from the directory watcher, reduced to what the
/// cache cares about.
#[derive(Clone, Copy, Debug, PartialEq, Eq, Structural)]
pub enum ChangeEvent {
    /// A pure read or access: harmless.
    Access,
    /// A write, create, remove or rename: the directory changed.
    Change,
    /// The watcher itself reported an error.
    Fault,
}

/// Error type for cache operations.
pub enum ResponseCacheError {
    /// The directory watcher failed.
    Notify,
    /// Reading or writing the directory failed.
    Io,
    /// A cache file held bytes that do not decode as an outcome.
    Parse(Vec<u8>),
}

/// The in-memory layer and the base directory's name. One entry per
/// hostname; entries are only trusted until the watcher reports an
/// outside change.
pub struct ResponseCache {
    /// The base directory, one file per hostname.
    pub dir: String,
    entries: Vec<(String, (DdnsResult, u64))>,
}

/// The mapping an entry list stands for: hostname to outcome and
/// timestamp. Later entries would win, but well-formed lists hold each
/// key once.
pub open spec fn entry_views(s: Seq<(String, (DdnsResult, u64))>) -> Map<Seq<char>, EntryView>
    decreases s.len(),
{
    if s.len() == 0 {
        Map::empty()
    } else {
        entry_views(s.drop_last()).insert(s.last().0@, (s.last().1.0@, s.last().1.1))
    }
}

/// Each hostname occurs at most once.
pub open spec fn entry_keys_unique(s: Seq<(String, (DdnsResult, u64))>) -> bool {
    forall|i: int, j: int| 0 <= i < j < s.len() ==> s[i].0@ != s[j].0@
}

proof fn lemma_entry_views_contains(s: Seq<(String, (DdnsResult, u64))>, k: Seq<char>)
    ensures
        entry_views(s).contains_key(k) <==> exists|i: int| 0 <= i < s.len() && s[i].0@ == k,
    decreases s.len(),
{
    if s.len() > 0 {
        lemma_entry_views_contains(s.drop_last(), k);
        if entry_views(s).contains_key(k) {
            if s.last().0@ == k {
                assert(s[s.len() - 1].0@ == k);
            } else {
                let i = choose|i: int| 0 <= i < s.drop_last().len() && s.drop_last()[i].0@ == k;
                assert(s[i].0@ == k);
            }
        }
        if exists|i: int| 0 <= i < s.len() && s[i].0@ == k {
            let i = choose|i: int| 0 <= i < s.len() && s[i].0@ == k;
            if i < s.len() - 1 {
                assert(s.drop_last()[i].0@ == k);
            }
        }
    }
}

proof fn lemma_entry_views_index(s: Seq<(String, (DdnsResult, u64))>, i: int)
    requires
        entry_keys_unique(s),
        0 <= i < s.len(),
    ensures
        entry_views(s).contains_key(s[i].0@),
        entry_views(s)[s[i].0@] == (s[i].1.0@, s[i].1.1),
    decreases s.len(),
{
    if i == s.len() - 1 {
    } else {
        assert(entry_keys_unique(s.drop_last()));
        lemma_entry_views_index(s.drop_last(), i);
        assert(s.drop_last()[i] == s[i]);
        assert(s[i].0@ != s.last().0@);
    }
}

proof fn lemma_entry_views_remove(s: Seq<(String, (DdnsResult, u64))>, i: int)
    requires
        entry_keys_unique(s),
        0 <= i < s.len(),
    ensures
        entry_views(s.remove(i)) == entry_views(s).remove(s[i].0@),
    decreases s.len(),
{
    let k = s[i].0@;
    if i == s.len() - 1 {
        assert(s.remove(i) =~= s.drop_last());
        assert(!entry_views(s.drop_last()).contains_key(k)) by {
            lemma_entry_views_contains(s.drop_last(), k);
            if exists|j: int| 0 <= j < s.drop_last().len() && s.drop_last()[j].0@ == k {
                let j = choose|j: int| 0 <= j < s.drop_last().len() && s.drop_last()[j].0@ == k;
                assert(s[j].0@ == s[i].0@);
            }
        }
        assert(entry_views(s.drop_last()) =~= entry_views(s.drop_last()).insert(
            k,
            (s.last().1.0@, s.last().1.1),
        ).remove(k));
    } else {
        assert(entry_keys_unique(s.drop_last()));
        lemma_entry_views_remove(s.drop_last(), i);
        assert(s.remove(i).drop_last() =~= s.drop_last().remove(i));
        assert(s.remove(i).last() == s.last());
        assert(s.drop_last()[i] == s[i]);
        let base = entry_views(s.drop_last());
        let lk = s.last().0@;
        let lv = (s.last().1.0@, s.last().1.1);
        assert(k != lk);
        assert(entry_views(s.remove(i)) == base.remove(k).insert(lk, lv));
        assert(base.remove(k).insert(lk, lv) =~= base.insert(lk, lv).remove(k));
    }
}

impl View for ResponseCache {
    type V = Map<Seq<char>, EntryView>;

    closed spec fn view(&self) -> Map<Seq<char>, EntryView> {
        entry_views(self.entries@)
    }
}

/// What the cache answers before any disk work: the remembered entry, or
/// word that disk must be consulted.
pub enum CacheLookup {
    /// The in-memory entry, served without touching disk.
    Hit(DdnsResult, u64),
    /// Nothing in memory: read the hostname's file and hand the result
    /// to `load_from_disk`.
    Miss,
}

impl ResponseCache {
    /// The in-memory layer holds each hostname at most once.
    pub closed spec fn wf(&self) -> bool {
        entry_keys_unique(self.entries@)
    }

    /// The base directory's name.
    pub closed spec fn dir_spec(&self) -> Seq<char> {
        self.dir@
    }

    /// An empty cache over the given directory. The caller sets up the
    /// directory watcher whose notifications feed `check_disk_changes`.
    pub fn new(dir: String) -> (r: ResponseCache)
        ensures
            r.wf(),
            r@ == Map::<Seq<char>, EntryView>::empty(),
            r.dir_spec() == dir@,
    {
        ResponseCache { dir, entries: Vec::new() }
    }

    /// The file a hostname's entry lives in.
    pub fn entry_path(&self, hostname: &str) -> (r: String)
        ensures
            r@ == self.dir_spec() + seq!['/'] + hostname@,
    {
        cache_file_path(self.dir.as_str(), hostname)
    }

    /// Index of a hostname's entry in the in-memory layer, if present.
    fn find_entry(&self, hostname: &str) -> (r: Option<usize>)
        ensures
            match r {
                Some(i) => i < self.entries@.len() && self.entries@[i as int].0@ == hostname@,
                None => forall|j: int|
                    0 <= j < self.entries@.len() ==> self.entries@[j].0@ != hostname@,
            },
    {
        let key = hostname.to_owned();
        let mut i: usize = 0;
        while i < self.entries.len()
            invariant
                i <= self.entries@.len(),
                key@ == hostname@,
                forall|j: int| 0 <= j < i ==> self.entries@[j].0@ != hostname@,
            decreases self.entries@.len() - i,
        {
            if self.entries[i].0 == key {
                return Some(i);
            }
            i += 1;
        }
        None
    }

    /// Puts an entry into the in-memory layer, replacing any older one
    /// for the same hostname.
    fn insert_entry(&mut self, hostname: &str, outcome: DdnsResult, stamp: u64)
        requires
            old(self).wf(),
        ensures
            final(self).wf(),
            final(self).dir_spec() == old(self).dir_spec(),
            final(self)@ == old(self)@.insert(hostname@, (outcome@, stamp)),
    {
        let ghost pre = self.entries@;
        match self.find_entry(hostname) {
            Some(i) => {
                proof {
                    lemma_entry_views_remove(pre, i as int);
                }
                self.entries.remove(i);
                proof {
                    assert(entry_keys_unique(self.entries@));
                    assert(forall|j: int|
                        0 <= j < self.entries@.len() ==> self.entries@[j].0@ != hostname@) by {
                        assert(forall|j: int|
                            0 <= j < self.entries@.len() ==> self.entries@[j] == (if j < i {
                                pre[j]
                            } else {
                                pre[j + 1]
                            }));
                    }
                }
            },
            None => {},
        }
        let ghost mid = self.entries@;
        self.entries.push((hostname.to_owned(), (outcome, stamp)));
        proof {
            assert(self.entries@.drop_last() =~= mid);
            assert(entry_views(self.entries@) == entry_views(mid).insert(
                hostname@,
                (self.entries@.last().1.0@, self.entries@.last().1.1),
            ));
            assert(entry_views(mid).insert(hostname@, (outcome@, stamp)) =~= old(self)@.insert(
                hostname@,
                (outcome@, stamp),
            ));
            assert(entry_keys_unique(self.entries@)) by {
                assert(forall|j: int|
                    0 <= j < mid.len() ==> #[trigger] mid[j].0@ != hostname@);
            }
        }
    }

    /// The in-memory answer for a hostname: the remembered entry if one
    /// is held, with no disk work, and `Miss` otherwise.
    pub fn get(&self, hostname: &str) -> (r: CacheLookup)
        requires
            self.wf(),
        ensures
            match r {
                CacheLookup::Hit(o, t) => self@.contains_key(hostname@) && self@[hostname@] == (
                    o@,
                    t,
                ),
                CacheLookup::Miss => !self@.contains_key(hostname@),
            },
    {
        proof {
            lemma_entry_views_contains(self.entries@, hostname@);
        }
        match self.find_entry(hostname) {
            Some(i) => {
                proof {
                    lemma_entry_views_index(self.entries@, i as int);
                }
                let entry = &self.entries[i].1;
                CacheLookup::Hit(entry.0.duplicate(), entry.1)
            },
            None => CacheLookup::Miss,
        }
    }

    /// Takes in what the caller read from disk for a hostname: `None`
    /// when the file does not exist, otherwise its bytes and its
    /// modification time in seconds. A missing file is an absent entry;
    /// bytes that decode are remembered and returned; bytes that do not
    /// decode are a parse error carrying those bytes, and the cache is
    /// unchanged.
    pub fn load_from_disk(&mut self, hostname: &str, file: Option<(Vec<u8>, u64)>) -> (r: Result<
        Option<(DdnsResult, u64)>,
        ResponseCacheError,
    >)
        requires
            old(self).wf(),
        ensures
            final(self).wf(),
            final(self).dir_spec() == old(self).dir_spec(),
            match file {
                None => r matches Ok(None) && final(self)@ == old(self)@,
                Some((data, mtime)) => match spec_parse_outcome(data@) {
                    Some(o) => {
                        &&& (r matches Ok(Some((res, t))) && res@ == o && t == mtime)
                        &&& final(self)@ == old(self)@.insert(hostname@, (o, mtime))
                    },
                    None => {
                        &&& (r matches Err(ResponseCacheError::Parse(d)) && d@ == data@)
                        &&& final(self)@ == old(self)@
                    },
                },
            },
    {
        match file {
            None => Ok(None),
            Some((data, mtime)) => match DdnsResult::parse(data.as_slice()) {
                Some(outcome) => {
                    let copy = outcome.duplicate();
                    self.insert_entry(hostname, outcome, mtime);
                    Ok(Some((copy, mtime)))
                },
                None => Err(ResponseCacheError::Parse(data)),
            },
        }
    }
}


/// What `put` asks of the caller: nothing, or one file write with the
/// given bytes to the hostname's file (creating the directory first if
/// needed).
pub enum PutAction {
    /// The entry was already remembered with this very value: no write.
    Skip,
    /// Write these bytes to the hostname's file.
    Write(Vec<u8>),
}

/// The effect of `put` on the remembered mapping: no change when the
/// hostname is already held with an equal outcome, else the entry is
/// replaced and a disk write is owed. The second component says whether
/// the write happens.
pub open spec fn spec_put(
    m: Map<Seq<char>, EntryView>,
    h: Seq<char>,
    o: OutcomeView,
    now: u64,
) -> (Map<Seq<char>, EntryView>, bool) {
    if m.contains_key(h) && m[h].0 == o {
        (m, false)
    } else {
        (m.insert(h, (o, now)), true)
    }
}

/// Whether any event reports an outside change.
pub open spec fn any_change(events: Seq<ChangeEvent>) -> bool {
    exists|i: int| 0 <= i < events.len() && events[i] is Change
}

/// Whether any event reports a watcher fault.
pub open spec fn any_fault(events: Seq<ChangeEvent>) -> bool {
    exists|i: int| 0 <= i < events.len() && events[i] is Fault
}

/// The effect of draining the watcher's notifications: on a fault the
/// drain fails and the memory is kept; otherwise any change empties the
/// in-memory layer, and pure accesses leave it alone.
pub open spec fn spec_check_disk(
    m: Map<Seq<char>, EntryView>,
    events: Seq<ChangeEvent>,
) -> Map<Seq<char>, EntryView> {
    if any_fault(events) {
        m
    } else if any_change(events) {
        Map::empty()
    } else {
        m
    }
}

impl ResponseCache {
    /// Remembers an outcome for a hostname, stamped `now`, and says what
    /// disk write is owed. An entry already held with an equal value is
    /// left untouched, timestamp included, and no write happens.
    pub fn put(&mut self, hostname: &str, response: &DdnsResult, now: u64) -> (r: PutAction)
        requires
            old(self).wf(),
        ensures
            final(self).wf(),
            final(self).dir_spec() == old(self).dir_spec(),
            final(self)@ == spec_put(old(self)@, hostname@, response@, now).0,
            (r matches PutAction::Write(_)) == spec_put(
                old(self)@,
                hostname@,
                response@,
                now,
            ).1,
            r matches PutAction::Write(c) ==> c@ == spec_format_outcome(response@),
    {
        proof {
            lemma_entry_views_contains(self.entries@, hostname@);
        }
        match self.find_entry(hostname) {
            Some(i) => {
                proof {
                    lemma_entry_views_index(self.entries@, i as int);
                }
                if self.entries[i].1.0.value_eq(response) {
                    return PutAction::Skip;
                }
                self.insert_entry(hostname, response.duplicate(), now);
                PutAction::Write(response.to_bytes())
            },
            None => {
                self.insert_entry(hostname, response.duplicate(), now);
                PutAction::Write(response.to_bytes())
            },
        }
    }

    /// Forgets a hostname's entry. The caller deletes the hostname's
    /// file, and reports its own error if the file does not exist.
    pub fn clear(&mut self, hostname: &str)
        requires
            old(self).wf(),
        ensures
            final(self).wf(),
            final(self).dir_spec() == old(self).dir_spec(),
            final(self)@ == old(self)@.remove(hostname@),
    {
        let ghost pre = self.entries@;
        match self.find_entry(hostname) {
            Some(i) => {
                proof {
                    lemma_entry_views_remove(pre, i as int);
                }
                self.entries.remove(i);
                proof {
                    assert(entry_keys_unique(self.entries@));
                }
            },
            None => {
                proof {
                    lemma_entry_views_contains(pre, hostname@);
                    assert(self@ =~= old(self)@.remove(hostname@));
                }
            },
        }
    }

    /// Drains the watcher's notifications gathered since the last check.
    /// Any notification beyond a pure access means the directory was
    /// touched, by this process or another, and the whole in-memory
    /// layer is dropped: the next `get` of any hostname re-reads disk.
    /// A watcher fault fails the drain and keeps the memory as it was.
    pub fn check_disk_changes(&mut self, events: &Vec<ChangeEvent>) -> (r: Result<
        (),
        ResponseCacheError,
    >)
        requires
            old(self).wf(),
        ensures
            final(self).wf(),
            final(self).dir_spec() == old(self).dir_spec(),
            final(self)@ == spec_check_disk(old(self)@, events@),
            (r is Err) == any_fault(events@),
            r matches Err(e) ==> e is Notify,
    {
        let mut changed = false;
        let mut i: usize = 0;
        while i < events.len()
            invariant
                i <= events@.len(),
                changed == exists|j: int| 0 <= j < i && events@[j] is Change,
                forall|j: int| 0 <= j < i ==> !(events@[j] is Fault),
                self == old(self),
                self.wf(),
            decreases events@.len() - i,
        {
            match events[i] {
                ChangeEvent::Access => {},
                ChangeEvent::Change => {
                    changed = true;
                    proof {
                        assert(events@[i as int] is Change);
                    }
                },
                ChangeEvent::Fault => {
                    proof {
                        assert(any_fault(events@));
                    }
                    return Err(ResponseCacheError::Notify);
                },
            }
            i += 1;
        }
        proof {
            if any_fault(events@) {
                let j = choose|j: int| 0 <= j < events@.len() && events@[j] is Fault;
                assert(!(events@[j] is Fault));
            }
        }
        if changed {
            self.entries = Vec::new();
            proof {
                assert(self@ =~= Map::<Seq<char>, EntryView>::empty());
            }
        }
        Ok(())
    }
}

// ---------------------------------------------------------------------------
// Laws of the cache
// ---------------------------------------------------------------------------

/// Writing the same outcome twice is idempotent: the second `put` writes
/// nothing and changes nothing, so the stored timestamp stays what the
/// first `put` left it.
pub proof fn lemma_put_no_op(
    m: Map<Seq<char>, EntryView>,
    h: Seq<char>,
    o: OutcomeView,
    t1: u64,
    t2: u64,
)
    ensures
        ({
            let (m1, w1) = spec_put(m, h, o, t1);
            let (m2, w2) = spec_put(m1, h, o, t2);
            m2 == m1 && !w2
        }),
{
}

/// After a drain that saw an outside change, nothing is remembered: a
/// later `get` of any hostname must go to disk.
pub proof fn lemma_invalidation(
    m: Map<Seq<char>, EntryView>,
    events: Seq<ChangeEvent>,
    h: Seq<char>,
)
    requires
        !any_fault(events),
        any_change(events),
    ensures
        !spec_check_disk(m, events).contains_key(h),
{
}

} // verus!

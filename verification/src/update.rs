//! The per-host update decision and the batch driver's bookkeeping.
//!
//! For one host the policy is: consult the cache; a remembered fatal
//! failure blocks the host until its entry is cleared; a remembered
//! transient failure blocks it while the backoff window is open; a
//! remembered address equal to the current one means the host is already
//! up to date and no call is made; anything else calls the client. What
//! the client answers is always recorded, success or failure, so later
//! runs can decide from it. The caller performs the call itself and the
//! cache's disk work, following the actions these functions return.

use vstd::prelude::*;

use crate::config::ClientConfig;
use crate::ddns::DdnsResult;
use crate::ddns::OutcomeView;
use crate::ip::IpAddr;
use crate::response_cache::EntryView;
use crate::response_cache::PutAction;
use crate::response_cache::ResponseCache;
use crate::response_cache::spec_put;
use vstd::slice::slice_to_vec;

verus! {

/// Why one host's update attempt did not succeed.
pub enum UpdateError {
    /// The cache could not be read for this host.
    CacheLoad,
    /// The cache could not be written for this host.
    CacheStore,
    /// A fatal outcome is remembered: code and text. The host is blocked
    /// until its cache entry is cleared.
    Fatal(Vec<u8>, Vec<u8>),
    /// A transient outcome is remembered and the backoff window is still
    /// open: code, text, how old the entry is, and the window in
    /// minutes.
    Backoff { code: Vec<u8>, text: Vec<u8>, age_secs: u64, backoff_mins: u64 },
    /// The remembered entry's timestamp lies in the future.
    ClockSkew,
    /// The client was called and answered with a failure: code and text.
    ClientFailure(Vec<u8>, Vec<u8>),
}

/// The mathematical value of an `UpdateError`.
pub enum UpdateErrorView {
    CacheLoad,
    CacheStore,
    Fatal(Seq<u8>, Seq<u8>),
    Backoff { code: Seq<u8>, text: Seq<u8>, age_secs: u64, backoff_mins: u64 },
    ClockSkew,
    ClientFailure(Seq<u8>, Seq<u8>),
}

impl View for UpdateError {
    type V = UpdateErrorView;

    open spec fn view(&self) -> UpdateErrorView {
        match self {
            UpdateError::CacheLoad => UpdateErrorView::CacheLoad,
            UpdateError::CacheStore => UpdateErrorView::CacheStore,
            UpdateError::Fatal(code, text) => UpdateErrorView::Fatal(code@, text@),
            UpdateError::Backoff { code, text, age_secs, backoff_mins } => UpdateErrorView::Backoff {
                code: code@,
                text: text@,
                age_secs: *age_secs,
                backoff_mins: *backoff_mins,
            },
            UpdateError::ClockSkew => UpdateErrorView::ClockSkew,
            UpdateError::ClientFailure(code, text) => UpdateErrorView::ClientFailure(code@, text@),
        }
    }
}

impl UpdateError {
    /// An equal-valued copy of this error.
    pub fn duplicate(&self) -> (r: UpdateError)
        ensures
            r@ == self@,
    {
        match self {
            UpdateError::CacheLoad => UpdateError::CacheLoad,
            UpdateError::CacheStore => UpdateError::CacheStore,
            UpdateError::Fatal(code, text) => UpdateError::Fatal(
                slice_to_vec(code.as_slice()),
                slice_to_vec(text.as_slice()),
            ),
            UpdateError::Backoff { code, text, age_secs, backoff_mins } => UpdateError::Backoff {
                code: slice_to_vec(code.as_slice()),
                text: slice_to_vec(text.as_slice()),
                age_secs: *age_secs,
                backoff_mins: *backoff_mins,
            },
            UpdateError::ClockSkew => UpdateError::ClockSkew,
            UpdateError::ClientFailure(code, text) => UpdateError::ClientFailure(
                slice_to_vec(code.as_slice()),
                slice_to_vec(text.as_slice()),
            ),
        }
    }
}

/// What the per-host policy decides before any network work.
pub enum HostDecision {
    /// The remembered address equals the current one: done, with no
    /// call to the client.
    AlreadyCurrent,
    /// The client must be called with the current address; hand its
    /// answer to `record_response`.
    NeedClient,
    /// The attempt is refused without a call; the error says why.
    Refuse(UpdateError),
}

/// The mathematical value of a `HostDecision`.
pub enum DecisionView {
    AlreadyCurrent,
    NeedClient,
    Refuse(UpdateErrorView),
}

impl View for HostDecision {
    type V = DecisionView;

    open spec fn view(&self) -> DecisionView {
        match self {
            HostDecision::AlreadyCurrent => DecisionView::AlreadyCurrent,
            HostDecision::NeedClient => DecisionView::NeedClient,
            HostDecision::Refuse(e) => DecisionView::Refuse(e@),
        }
    }
}

/// The per-host policy, from what the cache remembers, the backoff
/// window in minutes, the time now in seconds, and the current address.
/// An absent entry calls the client; a remembered address calls it only
/// when it differs from the current one; a fatal entry refuses outright;
/// a transient entry refuses while younger than the window and calls the
/// client once the window has passed. An entry stamped in the future is
/// refused as clock skew.
pub open spec fn spec_decide(
    entry: Option<EntryView>,
    backoff_mins: u64,
    now: u64,
    ip: IpAddr,
) -> DecisionView {
    match entry {
        None => DecisionView::NeedClient,
        Some((o, stamp)) => match o {
            OutcomeView::Good(old_ip) => if old_ip == ip {
                DecisionView::AlreadyCurrent
            } else {
                DecisionView::NeedClient
            },
            OutcomeView::NoChg(old_ip) => if old_ip == ip {
                DecisionView::AlreadyCurrent
            } else {
                DecisionView::NeedClient
            },
            OutcomeView::FatalError(code, text) => DecisionView::Refuse(
                UpdateErrorView::Fatal(code, text),
            ),
            OutcomeView::RetryableError(code, text) => if now < stamp {
                DecisionView::Refuse(UpdateErrorView::ClockSkew)
            } else if now - stamp < backoff_mins * 60 {
                DecisionView::Refuse(
                    UpdateErrorView::Backoff {
                        code,
                        text,
                        age_secs: (now - stamp) as u64,
                        backoff_mins,
                    },
                )
            } else {
                DecisionView::NeedClient
            },
        },
    }
}

/// The value a possibly remembered entry stands for.
pub open spec fn opt_entry_view(entry: Option<(DdnsResult, u64)>) -> Option<EntryView> {
    match entry {
        None => None,
        Some((o, stamp)) => Some((o@, stamp)),
    }
}

/// Decides one host's update attempt, as `spec_decide` describes.
pub fn decide_update(
    entry: &Option<(DdnsResult, u64)>,
    backoff_mins: u64,
    now: u64,
    ip: &IpAddr,
) -> (d: HostDecision)
    ensures
        d@ == spec_decide(opt_entry_view(*entry), backoff_mins, now, *ip),
{
    match entry {
        None => HostDecision::NeedClient,
        Some((outcome, stamp)) => match outcome {
            DdnsResult::Good(old_ip) => if *old_ip == *ip {
                HostDecision::AlreadyCurrent
            } else {
                HostDecision::NeedClient
            },
            DdnsResult::NoChg(old_ip) => if *old_ip == *ip {
                HostDecision::AlreadyCurrent
            } else {
                HostDecision::NeedClient
            },
            DdnsResult::FatalError(code, text) => HostDecision::Refuse(
                UpdateError::Fatal(slice_to_vec(code.as_slice()), slice_to_vec(text.as_slice())),
            ),
            DdnsResult::RetryableError(code, text) => {
                if now < *stamp {
                    HostDecision::Refuse(UpdateError::ClockSkew)
                } else {
                    let age: u64 = now - *stamp;
                    let window: u128 = backoff_mins as u128 * 60;
                    if (age as u128) < window {
                        HostDecision::Refuse(
                            UpdateError::Backoff {
                                code: slice_to_vec(code.as_slice()),
                                text: slice_to_vec(text.as_slice()),
                                age_secs: age,
                                backoff_mins,
                            },
                        )
                    } else {
                        HostDecision::NeedClient
                    }
                }
            },
        },
    }
}

/// Records what the client answered, success or failure, so later runs
/// decide from it, and turns the answer into the attempt's verdict. The
/// returned action is the disk write the cache asks for.
pub fn record_response(
    cache: &mut ResponseCache,
    hostname: &str,
    response: &DdnsResult,
    now: u64,
) -> (r: (PutAction, Result<(), UpdateError>))
    requires
        old(cache).wf(),
    ensures
        final(cache).wf(),
        final(cache).dir_spec() == old(cache).dir_spec(),
        final(cache)@ == spec_put(old(cache)@, hostname@, response@, now).0,
        (r.0 matches PutAction::Write(_)) == spec_put(old(cache)@, hostname@, response@, now).1,
        (r.0 matches PutAction::Write(c) ==> c@ == crate::ddns::spec_format_outcome(response@)),
        match response@ {
            OutcomeView::Good(_) => r.1 is Ok,
            OutcomeView::NoChg(_) => r.1 is Ok,
            OutcomeView::FatalError(code, text) => r.1 matches Err(e) && e@
                == UpdateErrorView::ClientFailure(code, text),
            OutcomeView::RetryableError(code, text) => r.1 matches Err(e) && e@
                == UpdateErrorView::ClientFailure(code, text),
        },
{
    let action = cache.put(hostname, response, now);
    let verdict = match response {
        DdnsResult::Good(_) => Ok(()),
        DdnsResult::NoChg(_) => Ok(()),
        DdnsResult::FatalError(code, text) => Err(
            UpdateError::ClientFailure(
                slice_to_vec(code.as_slice()),
                slice_to_vec(text.as_slice()),
            ),
        ),
        DdnsResult::RetryableError(code, text) => Err(
            UpdateError::ClientFailure(
                slice_to_vec(code.as_slice()),
                slice_to_vec(text.as_slice()),
            ),
        ),
    };
    (action, verdict)
}

/// Forgets a hostname's cache entry and names the file the caller must
/// delete; deleting a file that does not exist is the caller's error to
/// report.
pub fn clear_cache(cache: &mut ResponseCache, hostname: &str) -> (path: String)
    requires
        old(cache).wf(),
    ensures
        final(cache).wf(),
        final(cache).dir_spec() == old(cache).dir_spec(),
        final(cache)@ == old(cache)@.remove(hostname@),
        path@ == old(cache).dir_spec() + seq!['/'] + hostname@,
{
    let path = cache.entry_path(hostname);
    cache.clear(hostname);
    path
}

// ---------------------------------------------------------------------------
// The batch verdict
// ---------------------------------------------------------------------------

/// A batch's aggregate failure: each failed hostname with its reason, in
/// batch order. Hosts that succeeded are not in it.
pub struct UpdateErrors {
    /// The failed hostnames, each with its reason.
    pub errors: Vec<(String, UpdateError)>,
}

/// The failures among a batch's per-host verdicts, in order.
pub open spec fn spec_failures(rs: Seq<(String, Result<(), UpdateError>)>) -> Seq<
    (Seq<char>, UpdateErrorView),
>
    decreases rs.len(),
{
    if rs.len() == 0 {
        Seq::empty()
    } else {
        spec_failures(rs.drop_last()) + (match rs.last().1 {
            Ok(_) => Seq::<(Seq<char>, UpdateErrorView)>::empty(),
            Err(e) => seq![(rs.last().0@, e@)],
        })
    }
}

/// The value a list of named errors stands for.
pub open spec fn named_error_views(es: Seq<(String, UpdateError)>) -> Seq<
    (Seq<char>, UpdateErrorView),
> {
    es.map(|i: int, e: (String, UpdateError)| (e.0@, e.1@))
}

/// The batch verdict from the per-host verdicts: success only when every
/// host succeeded, else the aggregate naming exactly the failed hosts,
/// in order.
pub fn collect_failures(results: &Vec<(String, Result<(), UpdateError>)>) -> (r: Result<
    (),
    UpdateErrors,
>)
    ensures
        r is Ok <==> spec_failures(results@).len() == 0,
        match r {
            Ok(_) => spec_failures(results@).len() == 0,
            Err(es) => named_error_views(es.errors@) == spec_failures(results@),
        },
{
    let mut errors: Vec<(String, UpdateError)> = Vec::new();
    let mut i: usize = 0;
    while i < results.len()
        invariant
            i <= results@.len(),
            named_error_views(errors@) == spec_failures(results@.take(i as int)),
        decreases results@.len() - i,
    {
        proof {
            assert(results@.take(i as int + 1).drop_last() =~= results@.take(i as int));
            assert(results@.take(i as int + 1).last() == results@[i as int]);
        }
        match &results[i].1 {
            Ok(_) => {
                proof {
                    assert(named_error_views(errors@) =~= spec_failures(
                        results@.take(i as int + 1),
                    ));
                }
            },
            Err(e) => {
                errors.push((results[i].0.clone(), e.duplicate()));
                proof {
                    assert(named_error_views(errors@) =~= spec_failures(
                        results@.take(i as int + 1),
                    ));
                }
            },
        }
        i += 1;
    }
    proof {
        assert(results@.take(results@.len() as int) =~= results@);
    }
    if errors.len() == 0 {
        proof {
            assert(named_error_views(errors@) =~= Seq::<(Seq<char>, UpdateErrorView)>::empty());
        }
        Ok(())
    } else {
        Err(UpdateErrors { errors })
    }
}

// ---------------------------------------------------------------------------
// The batch driver's bookkeeping
// ---------------------------------------------------------------------------

/// One pass over the configured hosts. The caller takes the current host
/// with `current`, attempts it, and hands the verdict to `record`; no
/// verdict ever stops the pass, so one bad host cannot prevent the
/// others from being attempted. When every host is done, `verdict` folds
/// the per-host verdicts into the batch's.
pub struct BatchRun {
    /// The hosts of this pass, in order.
    pub hosts: Vec<(String, ClientConfig)>,
    /// How many hosts have been attempted.
    pub next: usize,
    /// One verdict per attempted host, in order.
    pub results: Vec<(String, Result<(), UpdateError>)>,
}

/// Every attempted host has exactly one verdict, in host order.
pub open spec fn wf_batch(b: &BatchRun) -> bool {
    &&& b.next <= b.hosts@.len()
    &&& b.results@.len() == b.next
    &&& forall|i: int| 0 <= i < b.next ==> #[trigger] b.results@[i].0@ == b.hosts@[i].0@
}

impl BatchRun {
    /// A pass over the given hosts, none attempted yet.
    pub fn new(hosts: Vec<(String, ClientConfig)>) -> (r: BatchRun)
        ensures
            wf_batch(&r),
            r.hosts == hosts,
            r.next == 0,
            r.results@.len() == 0,
    {
        BatchRun { hosts, next: 0, results: Vec::new() }
    }

    /// The host to attempt next, or `None` when the pass is complete.
    pub fn current(&self) -> (r: Option<&(String, ClientConfig)>)
        ensures
            match r {
                Some(h) => self.next < self.hosts@.len() && *h == self.hosts@[self.next as int],
                None => self.next >= self.hosts@.len(),
            },
    {
        if self.next < self.hosts.len() {
            Some(&self.hosts[self.next])
        } else {
            None
        }
    }

    /// Records the current host's verdict and moves to the next host.
    pub fn record(&mut self, verdict: Result<(), UpdateError>)
        requires
            wf_batch(old(self)),
            old(self).next < old(self).hosts@.len(),
        ensures
            wf_batch(final(self)),
            final(self).hosts == old(self).hosts,
            final(self).next == old(self).next + 1,
            final(self).results@.drop_last() == old(self).results@,
            final(self).results@.len() == old(self).results@.len() + 1,
            final(self).results@.last().0@ == old(self).hosts@[old(self).next as int].0@,
            final(self).results@.last().1 == verdict,
    {
        let n = self.hosts.len();
        let hostname = self.hosts[self.next].0.clone();
        self.results.push((hostname, verdict));
        assert(self.next < n);
        self.next += 1;
        proof {
            assert(self.results@.drop_last() =~= old(self).results@);
        }
    }

    /// The batch's verdict, once every host has been attempted: success
    /// only when every host succeeded, else the aggregate naming exactly
    /// the failed hosts, in order.
    pub fn verdict(&self) -> (r: Result<(), UpdateErrors>)
        requires
            wf_batch(self),
            self.next == self.hosts@.len(),
        ensures
            r is Ok <==> spec_failures(self.results@).len() == 0,
            match r {
                Ok(_) => spec_failures(self.results@).len() == 0,
                Err(es) => named_error_views(es.errors@) == spec_failures(self.results@),
            },
    {
        collect_failures(&self.results)
    }
}

// ---------------------------------------------------------------------------
// Defaults and resolution
// ---------------------------------------------------------------------------

/// Where the cache lives when nothing names a directory.
pub fn default_cache_dir() -> (r: &'static str)
    ensures
        r@ == "/var/cache/gddns"@,
{
    "/var/cache/gddns"
}

/// The cache directory to use: the command line's, else the
/// configuration's, else the default.
pub fn resolve_cache_dir(cli: Option<String>, config: Option<String>) -> (r: String)
    ensures
        match cli {
            Some(d) => r@ == d@,
            None => match config {
                Some(d) => r@ == d@,
                None => r@ == "/var/cache/gddns"@,
            },
        },
{
    match cli {
        Some(d) => d,
        None => match config {
            Some(d) => d,
            None => default_cache_dir().to_owned(),
        },
    }
}

/// The daemon's polling interval in seconds: the command line's, else
/// the configuration's, else five minutes.
pub fn resolve_poll_interval(cli: Option<u64>, config: Option<u64>) -> (r: u64)
    ensures
        match cli {
            Some(s) => r == s,
            None => match config {
                Some(s) => r == s,
                None => r == 300,
            },
        },
{
    match cli {
        Some(s) => s,
        None => match config {
            Some(s) => s,
            None => 300,
        },
    }
}

// ---------------------------------------------------------------------------
// Laws of the per-host policy
// ---------------------------------------------------------------------------

/// When the remembered outcome carries the current address, the decision
/// is `AlreadyCurrent`: the client is never called.
pub proof fn lemma_skip_network_on_match(
    o: OutcomeView,
    stamp: u64,
    backoff_mins: u64,
    now: u64,
    ip: IpAddr,
)
    requires
        o == OutcomeView::Good(ip) || o == OutcomeView::NoChg(ip),
    ensures
        spec_decide(Some((o, stamp)), backoff_mins, now, ip) == DecisionView::AlreadyCurrent,
{
}

/// A remembered transient failure gates on its age alone: within the
/// window the attempt is refused with the remaining context and no call;
/// once the window has passed, the client is called.
pub proof fn lemma_backoff_gating(
    code: Seq<u8>,
    text: Seq<u8>,
    stamp: u64,
    backoff_mins: u64,
    now: u64,
    ip: IpAddr,
)
    requires
        stamp <= now,
    ensures
        now - stamp < backoff_mins * 60 ==> spec_decide(
            Some((OutcomeView::RetryableError(code, text), stamp)),
            backoff_mins,
            now,
            ip,
        ) == DecisionView::Refuse(
            UpdateErrorView::Backoff {
                code,
                text,
                age_secs: (now - stamp) as u64,
                backoff_mins,
            },
        ),
        now - stamp >= backoff_mins * 60 ==> spec_decide(
            Some((OutcomeView::RetryableError(code, text), stamp)),
            backoff_mins,
            now,
            ip,
        ) == DecisionView::NeedClient,
{
}

/// A remembered fatal failure blocks the host at every later time, with
/// no call, until its entry is cleared; with the entry gone the next
/// attempt calls the client again.
pub proof fn lemma_fatal_persistence(
    code: Seq<u8>,
    text: Seq<u8>,
    stamp: u64,
    backoff_mins: u64,
    now: u64,
    ip: IpAddr,
)
    ensures
        spec_decide(Some((OutcomeView::FatalError(code, text), stamp)), backoff_mins, now, ip)
            == DecisionView::Refuse(UpdateErrorView::Fatal(code, text)),
        spec_decide(None, backoff_mins, now, ip) == DecisionView::NeedClient,
{
}

} // verus!

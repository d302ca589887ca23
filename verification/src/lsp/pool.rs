//! The language servers of a project: which run, when they are started, restarted and shut down.
//!
//! A server that takes several workspace folders runs once for its language. One that does not
//! runs once for each workspace root, and the least recently used of those makes room for others.
//! Times are readings of one clock in milliseconds; only their order and differences count.

use crate::detect::language::{language_for_file, language_of, slice_contains, Language};
use crate::json::{Json, JsonValue};
use crate::lsp::registry::{get_entry, servers_for};
use crate::paths::{
    components, extension, path_depth, path_eq, path_extension, path_join, path_starts_with, joined, same_path, under,
};
use crate::text::{decimal, opt_view, push_decimal, views};
use vstd::prelude::*;

verus! {

/// Crashes of a server that runs once for its language before it is given up.
pub const MAX_CRASHES: u32 = 5;

/// Seconds of running after which earlier crashes are forgotten.
pub const STABILITY_RESET_SECS: u64 = 300;

/// Greatest number of concurrent sessions of one language, unless configured.
pub const DEFAULT_MAX_LRU_SESSIONS: usize = 10;

/// Seconds to wait before a server is started again after its `crash_count`-th crash.
pub open spec fn backoff_secs(crash_count: u32) -> u64 {
    match crash_count {
        0 => 2,
        1 => 2,
        2 => 4,
        3 => 8,
        4 => 16,
        5 => 32,
        _ => 60,
    }
}

/// Seconds to wait before a server is started again after its `crash_count`-th crash.
pub fn backoff_delay(crash_count: u32) -> (r: u64)
    ensures
        r == backoff_secs(crash_count),
{
    match crash_count {
        0 => 2,
        1 => 2,
        2 => 4,
        3 => 8,
        4 => 16,
        5 => 32,
        _ => 60,
    }
}

// ── State of one language ───────────────────────────────────────────────────

/// A running server.
pub struct ServerSlot {
    /// The workspace root that it was started for.
    pub root: String,
    pub server_name: String,
    pub started_at: u64,
    pub last_used_at: u64,
    pub open_files: usize,
    pub attached_folders: usize,
}

/// The mathematical value of a [`ServerSlot`].
#[verifier::ext_equal]
pub struct Slot {
    pub root: Seq<char>,
    pub server_name: Seq<char>,
    pub started_at: u64,
    pub last_used_at: u64,
    pub open_files: usize,
    pub attached_folders: usize,
}

impl View for ServerSlot {
    type V = Slot;

    open spec fn view(&self) -> Slot {
        Slot {
            root: self.root@,
            server_name: self.server_name@,
            started_at: self.started_at,
            last_used_at: self.last_used_at,
            open_files: self.open_files,
            attached_folders: self.attached_folders,
        }
    }
}

/// The mathematical values of a list of slots.
pub open spec fn slots(v: Seq<ServerSlot>) -> Seq<Slot> {
    Seq::new(v.len(), |i: int| v[i]@)
}

/// How the servers of a language are run.
pub enum ServerStrategy {
    /// One server, to which workspace folders are attached.
    MultiRoot(ServerSlot),
    /// One server for each workspace root, up to a greatest number.
    LruPerRoot(Vec<ServerSlot>),
}

/// The mathematical value of a [`ServerStrategy`].
#[verifier::ext_equal]
pub enum Strategy {
    MultiRoot(Slot),
    LruPerRoot(Seq<Slot>),
}

impl View for ServerStrategy {
    type V = Strategy;

    open spec fn view(&self) -> Strategy {
        match *self {
            ServerStrategy::MultiRoot(s) => Strategy::MultiRoot(s@),
            ServerStrategy::LruPerRoot(v) => Strategy::LruPerRoot(slots(v@)),
        }
    }
}

/// The servers of one language.
pub struct LanguageState {
    /// `None` where no server was started yet.
    pub strategy: Option<ServerStrategy>,
    pub crash_count: u32,
    /// Set when the language has permanently failed.
    pub failed: Option<String>,
}

/// The mathematical value of a [`LanguageState`].
#[verifier::ext_equal]
pub struct Servers {
    pub strategy: Option<Strategy>,
    pub crash_count: u32,
    pub failed: Option<Seq<char>>,
}

impl View for LanguageState {
    type V = Servers;

    open spec fn view(&self) -> Servers {
        Servers {
            strategy: match self.strategy {
                Some(s) => Some(s@),
                None => None,
            },
            crash_count: self.crash_count,
            failed: opt_view(self.failed),
        }
    }
}

/// No two sessions have the same root.
pub open spec fn roots_distinct(s: Seq<Slot>) -> bool {
    forall|i: int, j: int| 0 <= i < j < s.len() ==> !same_path((#[trigger] s[i]).root, (#[trigger] s[j]).root)
}

impl Servers {
    /// Sessions have distinct roots.
    pub open spec fn is_sound(self) -> bool {
        match self.strategy {
            Some(Strategy::LruPerRoot(s)) => roots_distinct(s),
            _ => true,
        }
    }

    /// Some server runs.
    pub open spec fn ready(self) -> bool {
        match self.strategy {
            Some(Strategy::MultiRoot(_)) => true,
            Some(Strategy::LruPerRoot(s)) => s.len() > 0,
            None => false,
        }
    }

    /// Servers run for each root, and none does at present.
    pub open spec fn lru_empty(self) -> bool {
        match self.strategy {
            Some(Strategy::LruPerRoot(s)) => s.len() == 0,
            _ => false,
        }
    }
}

/// Position of the session with a root, or the number of all where there is none.
pub open spec fn root_index(s: Seq<Slot>, root: Seq<char>) -> int
    decreases s.len(),
{
    if s.len() == 0 || same_path(s[0].root, root) {
        0
    } else {
        1 + root_index(s.drop_first(), root)
    }
}

proof fn root_index_is_first(s: Seq<Slot>, root: Seq<char>)
    ensures
        0 <= root_index(s, root) <= s.len(),
        root_index(s, root) < s.len() ==> same_path(s[root_index(s, root)].root, root),
        forall|i: int| 0 <= i < root_index(s, root) ==> !same_path((#[trigger] s[i]).root, root),
    decreases s.len(),
{
    if s.len() > 0 && !same_path(s[0].root, root) {
        let t = s.drop_first();
        root_index_is_first(t, root);
        assert forall|i: int| 0 <= i < root_index(s, root) implies !same_path((#[trigger] s[i]).root, root) by {
            if i > 0 {
                assert(t[i - 1] == s[i]);
            }
        }
    }
}

fn find_root(v: &Vec<ServerSlot>, root: &str) -> (r: usize)
    ensures
        r == root_index(slots(v@), root@),
        r <= v@.len(),
        r < v@.len() ==> same_path(slots(v@)[r as int].root, root@),
{
    let ghost all = slots(v@);
    let mut i: usize = 0;
    assert(all.skip(0) =~= all);
    while i < v.len()
        invariant
            0 <= i <= v@.len(),
            all == slots(v@),
            root_index(all, root@) == i + root_index(all.skip(i as int), root@),
        decreases v@.len() - i,
    {
        assert(all.skip(i as int)[0] == v@[i as int]@);
        assert(all.skip(i as int).drop_first() =~= all.skip(i + 1));
        if path_eq(v[i].root.as_str(), root) {
            return i;
        }
        i = i + 1;
    }
    i
}

impl LanguageState {
    /// No server was started yet.
    pub fn new() -> (r: LanguageState)
        ensures
            r@ == (Servers { strategy: None, crash_count: 0, failed: None }),
    {
        LanguageState { strategy: None, crash_count: 0, failed: None }
    }

    /// Whether a live session exists.
    pub fn is_ready(&self) -> (r: bool)
        ensures
            r == self@.ready(),
    {
        match &self.strategy {
            Some(ServerStrategy::MultiRoot(_)) => true,
            Some(ServerStrategy::LruPerRoot(v)) => v.len() > 0,
            None => false,
        }
    }

    /// Whether servers run for each root and none does at present.
    pub fn is_lru_empty(&self) -> (r: bool)
        ensures
            r == self@.lru_empty(),
    {
        match &self.strategy {
            Some(ServerStrategy::LruPerRoot(v)) => v.len() == 0,
            _ => false,
        }
    }
}

// ── Health and restarts ─────────────────────────────────────────────────────

/// What was seen of a language's running servers.
pub struct Pulse {
    /// Whether the one server of the language runs.
    pub alive: bool,
    /// How long it has been running.
    pub uptime_secs: u64,
    /// The roots of the sessions that do not run any more.
    pub dead_roots: Vec<String>,
}

/// What to do before a language can be queried.
#[derive(Debug)]
pub enum StartStep {
    /// Nothing: it can be queried.
    Ready,
    /// Start its first server.
    Boot,
    /// Wait, then start its first server.
    BootAfter { delay_secs: u64 },
    /// Refuse, with this message: it has permanently failed.
    Refuse(String),
}

/// One of the roots is that of the session.
pub open spec fn is_dead(root: Seq<char>, dead: Seq<Seq<char>>) -> bool {
    exists|i: int| 0 <= i < dead.len() && same_path(#[trigger] dead[i], root)
}

/// The sessions that still run.
pub open spec fn live_slots(s: Seq<Slot>, dead: Seq<Seq<char>>) -> Seq<Slot>
    decreases s.len(),
{
    if s.len() == 0 {
        Seq::empty()
    } else if is_dead(s.last().root, dead) {
        live_slots(s.drop_last(), dead)
    } else {
        live_slots(s.drop_last(), dead).push(s.last())
    }
}

/// Why a language is given up after `n` crashes.
pub open spec fn crash_reason(n: u32) -> Seq<char> {
    "crashed "@ + decimal(n as nat) + " times, giving up"@
}

/// What is said of a language that has permanently failed.
pub open spec fn failed_message(lang: Language, reason: Seq<char>) -> Seq<char> {
    "LSP "@ + lang.label() + " permanently failed: "@ + reason
}

/// The state of a language after a look at its servers.
pub open spec fn after_check(s: Servers, alive: bool, uptime_secs: u64, dead: Seq<Seq<char>>) -> Servers {
    if s.failed is Some {
        s
    } else {
        match s.strategy {
            None => s,
            Some(Strategy::MultiRoot(_)) => if alive {
                if uptime_secs >= STABILITY_RESET_SECS {
                    Servers { crash_count: 0, ..s }
                } else {
                    s
                }
            } else {
                let n = (s.crash_count + 1) as u32;
                if n >= MAX_CRASHES {
                    Servers { crash_count: n, failed: Some(crash_reason(n)), ..s }
                } else {
                    Servers { crash_count: n, strategy: None, ..s }
                }
            },
            Some(Strategy::LruPerRoot(v)) => Servers {
                strategy: Some(Strategy::LruPerRoot(live_slots(v, dead))),
                ..s
            },
        }
    }
}

/// What to do after a look at the servers of a language.
pub open spec fn step_after_check(s: Servers, alive: bool, lang: Language, step: StartStep) -> bool {
    match s.failed {
        Some(reason) => step matches StartStep::Refuse(m) && m@ == failed_message(lang, reason),
        None => match s.strategy {
            None => step is Boot,
            Some(Strategy::MultiRoot(_)) => if alive {
                step is Ready
            } else if s.crash_count + 1 >= MAX_CRASHES {
                step matches StartStep::Refuse(m) && m@ == failed_message(
                    lang,
                    crash_reason((s.crash_count + 1) as u32),
                )
            } else {
                step matches StartStep::BootAfter { delay_secs } && delay_secs == backoff_secs(
                    (s.crash_count + 1) as u32,
                )
            },
            Some(Strategy::LruPerRoot(_)) => step is Ready,
        },
    }
}

fn refusal(lang: Language, reason: &str) -> (r: StartStep)
    ensures
        r matches StartStep::Refuse(m) && m@ == failed_message(lang, reason@),
{
    let mut m = "LSP ".to_string();
    m.append(lang.name());
    m.append(" permanently failed: ");
    m.append(reason);
    StartStep::Refuse(m)
}

fn keep_live(v: &mut Vec<ServerSlot>, dead: &Vec<String>)
    ensures
        slots(final(v)@) == live_slots(slots(old(v)@), views(dead@)),
{
    let ghost all = slots(v@);
    let mut rest: Vec<ServerSlot> = Vec::new();
    let mut kept: Vec<ServerSlot> = Vec::new();
    rest.append(v);
    let ghost given = rest@;
    assert(slots(given) =~= all);
    assert(all.take(0) =~= Seq::empty());
    assert(slots(kept@) =~= Seq::empty());
    for s in it: rest
        invariant
            it.seq() == given,
            all == slots(given),
            slots(kept@) == live_slots(all.take(it.index()), views(dead@)),
    {
        let ghost i = it.index();
        assert(all.take(i + 1).drop_last() =~= all.take(i));
        assert(all.take(i + 1).last() == s@);
        let mut gone = false;
        let mut k: usize = 0;
        while k < dead.len()
            invariant
                0 <= k <= dead@.len(),
                gone == exists|j: int| 0 <= j < k && same_path(#[trigger] views(dead@)[j], s@.root),
            decreases dead@.len() - k,
        {
            assert(views(dead@)[k as int] == dead@[k as int]@);
            if path_eq(dead[k].as_str(), s.root.as_str()) {
                gone = true;
            }
            k = k + 1;
        }
        if !gone {
            let ghost before = slots(kept@);
            let ghost sv = s@;
            kept.push(s);
            assert(slots(kept@) =~= before.push(sv));
        }
    }
    assert(all.take(all.len() as int) =~= all);
    *v = kept;
}

/// Looks at a language's servers and tells what to do before it can be queried.
///
/// A server that runs once for its language is restarted after a crash, each time after a longer
/// wait, and given up after too many crashes. Sessions that run once for each root are removed
/// when they crash.
pub fn ensure_running(state: &mut LanguageState, lang: Language, pulse: &Pulse) -> (r: StartStep)
    requires
        old(state).crash_count < u32::MAX,
    ensures
        final(state)@ == after_check(old(state)@, pulse.alive, pulse.uptime_secs, views(pulse.dead_roots@)),
        step_after_check(old(state)@, pulse.alive, lang, r),
{
    if let Some(reason) = &state.failed {
        return refusal(lang, reason.as_str());
    }
    match &mut state.strategy {
        None => StartStep::Boot,
        Some(ServerStrategy::LruPerRoot(v)) => {
            keep_live(v, &pulse.dead_roots);
            StartStep::Ready
        },
        Some(ServerStrategy::MultiRoot(_)) => {
            if pulse.alive {
                if pulse.uptime_secs >= STABILITY_RESET_SECS {
                    state.crash_count = 0;
                }
                return StartStep::Ready;
            }
            let n: u32 = state.crash_count + 1;
            state.crash_count = n;
            if n >= MAX_CRASHES {
                let mut reason = "crashed ".to_string();
                push_decimal(&mut reason, n as u64);
                reason.append(" times, giving up");
                let step = refusal(lang, reason.as_str());
                state.failed = Some(reason);
                return step;
            }
            state.strategy = None;
            StartStep::BootAfter { delay_secs: backoff_delay(n) }
        },
    }
}

/// The state after the first server of a language was started.
pub open spec fn after_first_boot(s: Servers, slot: Slot, takes_folders: bool) -> Servers {
    Servers {
        strategy: Some(
            if takes_folders {
                Strategy::MultiRoot(slot)
            } else {
                Strategy::LruPerRoot(seq![slot])
            },
        ),
        ..s
    }
}

/// Records that the first server of a language was started. Whether it takes several workspace
/// folders decides how its servers are run.
pub fn record_first_boot(state: &mut LanguageState, slot: ServerSlot, takes_folders: bool)
    ensures
        final(state)@ == after_first_boot(old(state)@, slot@, takes_folders),
{
    if takes_folders {
        state.strategy = Some(ServerStrategy::MultiRoot(slot));
    } else {
        let ghost sv = slot@;
        let v = vec![slot];
        assert(slots(v@) =~= seq![sv]);
        state.strategy = Some(ServerStrategy::LruPerRoot(v));
    }
}

/// Forgets the servers of a language and its failures, so that it is started anew.
pub fn reset(state: &mut LanguageState)
    ensures
        final(state)@ == (Servers { strategy: None, crash_count: 0, failed: None }),
{
    state.strategy = None;
    state.failed = None;
    state.crash_count = 0;
}

// ── Sessions for each root ──────────────────────────────────────────────────

/// A root that is never evicted.
pub open spec fn is_priority(root: Seq<char>, priority: Seq<Seq<char>>) -> bool {
    exists|i: int| 0 <= i < priority.len() && same_path(#[trigger] priority[i], root)
}

/// Of the first `n` sessions, the position of the one to evict: the least recently used of those
/// without priority; of several, the first.
pub open spec fn victim(s: Seq<Slot>, priority: Seq<Seq<char>>, n: int) -> Option<int>
    decreases n,
{
    if n <= 0 {
        None
    } else {
        let rest = victim(s, priority, n - 1);
        if is_priority(s[n - 1].root, priority) {
            rest
        } else {
            match rest {
                Some(i) => if s[n - 1].last_used_at < s[i].last_used_at {
                    Some(n - 1)
                } else {
                    Some(i)
                },
                None => Some(n - 1),
            }
        }
    }
}

/// The session to evict has no priority, and none without priority was used less recently. Where
/// there is none to evict, all have priority.
pub proof fn victim_is_least_recent(s: Seq<Slot>, priority: Seq<Seq<char>>, n: int)
    requires
        0 <= n <= s.len(),
    ensures
        match victim(s, priority, n) {
            Some(i) => 0 <= i < n && !is_priority(s[i].root, priority) && forall|k: int|
                0 <= k < n && !is_priority((#[trigger] s[k]).root, priority) ==> s[i].last_used_at
                    <= s[k].last_used_at,
            None => forall|k: int| 0 <= k < n ==> is_priority((#[trigger] s[k]).root, priority),
        },
    decreases n,
{
    if n > 0 {
        victim_is_least_recent(s, priority, n - 1);
    }
}

fn has_priority(root: &str, priority: &Vec<String>) -> (r: bool)
    ensures
        r == is_priority(root@, views(priority@)),
{
    let mut k: usize = 0;
    while k < priority.len()
        invariant
            0 <= k <= priority@.len(),
            forall|j: int| 0 <= j < k ==> !same_path(#[trigger] views(priority@)[j], root@),
        decreases priority@.len() - k,
    {
        assert(views(priority@)[k as int] == priority@[k as int]@);
        if path_eq(priority[k].as_str(), root) {
            return true;
        }
        k = k + 1;
    }
    false
}

fn find_victim(v: &Vec<ServerSlot>, priority: &Vec<String>) -> (r: Option<usize>)
    ensures
        match r {
            Some(i) => i < v@.len() && victim(slots(v@), views(priority@), v@.len() as int) == Some(i as int),
            None => victim(slots(v@), views(priority@), v@.len() as int) is None,
        },
{
    let ghost all = slots(v@);
    let ghost pr = views(priority@);
    let mut best: Option<usize> = None;
    let mut i: usize = 0;
    while i < v.len()
        invariant
            0 <= i <= v@.len(),
            all == slots(v@),
            pr == views(priority@),
            match best {
                Some(b) => b < i && victim(all, pr, i as int) == Some(b as int),
                None => victim(all, pr, i as int) is None,
            },
        decreases v@.len() - i,
    {
        assert(all[i as int] == v@[i as int]@);
        if !has_priority(v[i].root.as_str(), priority) {
            best = match best {
                Some(b) => {
                    assert(all[b as int] == v@[b as int]@);
                    if v[i].last_used_at < v[b].last_used_at {
                        Some(i)
                    } else {
                        Some(b)
                    }
                },
                None => Some(i),
            };
        }
        i = i + 1;
    }
    best
}

/// The sessions after room was made for one more, where there are `max` or more: one leaves, unless
/// all have priority.
pub open spec fn after_eviction(s: Seq<Slot>, priority: Seq<Seq<char>>, max: int) -> Seq<Slot> {
    if s.len() >= max {
        match victim(s, priority, s.len() as int) {
            Some(i) => s.remove(i),
            None => s,
        }
    } else {
        s
    }
}

/// The sessions after one was started for its root; it takes the place of an earlier one there.
pub open spec fn with_session(s: Seq<Slot>, slot: Slot) -> Seq<Slot> {
    let i = root_index(s, slot.root);
    if 0 <= i < s.len() {
        s.update(i, slot)
    } else {
        s.push(slot)
    }
}

/// Records that a session was started for a root.
///
/// `Err` holds the message for a language whose server runs only once.
pub fn add_session(state: &mut LanguageState, lang: Language, slot: ServerSlot) -> (r: Result<(), String>)
    ensures
        match old(state)@.strategy {
            Some(Strategy::LruPerRoot(s)) => r is Ok && final(state)@ == (Servers {
                strategy: Some(Strategy::LruPerRoot(with_session(s, slot@))),
                ..old(state)@
            }),
            _ => r matches Err(m) && m@ == "expected LRU strategy for "@ + lang.label() && final(state)@ == old(state)@,
        },
{
    match &mut state.strategy {
        Some(ServerStrategy::LruPerRoot(v)) => {
            let ghost before = slots(v@);
            let ghost sv = slot@;
            let i: usize = find_root(v, slot.root.as_str());
            if i < v.len() {
                v.set(i, slot);
                assert(slots(v@) =~= before.update(i as int, sv));
            } else {
                v.push(slot);
                assert(slots(v@) =~= before.push(sv));
            }
            Ok(())
        },
        _ => {
            let mut m = "expected LRU strategy for ".to_string();
            m.append(lang.name());
            Err(m)
        },
    }
}

/// What to do to query a language for a file under a workspace root.
#[derive(Debug)]
pub enum RouteStep {
    /// Attach the root to the one server, where it is not attached yet.
    Attach,
    /// Start a session for the root.
    BootSession,
    /// Query the session of the root.
    UseSession,
    /// Refuse, with this message: no server runs.
    Refuse(String),
}

/// Tells what to do to query a language for a file under a workspace root.
pub fn route_with_root(state: &LanguageState, lang: Language, root: &str) -> (r: RouteStep)
    ensures
        match state@.strategy {
            Some(Strategy::MultiRoot(_)) => r is Attach,
            Some(Strategy::LruPerRoot(s)) => if root_index(s, root@) < s.len() {
                r is UseSession
            } else {
                r is BootSession
            },
            None => r matches RouteStep::Refuse(m) && m@ == "no server for "@ + lang.label(),
        },
{
    match &state.strategy {
        Some(ServerStrategy::MultiRoot(_)) => RouteStep::Attach,
        Some(ServerStrategy::LruPerRoot(v)) => {
            if find_root(v, root) < v.len() {
                RouteStep::UseSession
            } else {
                RouteStep::BootSession
            }
        },
        None => {
            let mut m = "no server for ".to_string();
            m.append(lang.name());
            RouteStep::Refuse(m)
        },
    }
}

/// The sessions after that of a root was used.
pub open spec fn touched(s: Seq<Slot>, root: Seq<char>, now: u64) -> Seq<Slot> {
    let i = root_index(s, root);
    if 0 <= i < s.len() {
        s.update(i, Slot { last_used_at: now, ..s[i] })
    } else {
        s
    }
}

/// Records that the session of a root was used.
pub fn touch_session(state: &mut LanguageState, root: &str, now: u64)
    ensures
        match old(state)@.strategy {
            Some(Strategy::LruPerRoot(s)) => final(state)@ == (Servers {
                strategy: Some(Strategy::LruPerRoot(touched(s, root@, now))),
                ..old(state)@
            }),
            _ => final(state)@ == old(state)@,
        },
{
    match &mut state.strategy {
        Some(ServerStrategy::LruPerRoot(v)) => {
            let ghost before = slots(v@);
            let i: usize = find_root(v, root);
            if i < v.len() {
                touch_at(v, i, now);
            }
            assert(slots(v@) =~= touched(before, root@, now));
        },
        _ => {},
    }
}

fn touch_at(v: &mut Vec<ServerSlot>, i: usize, now: u64)
    requires
        i < old(v)@.len(),
    ensures
        slots(final(v)@) == slots(old(v)@).update(i as int, Slot { last_used_at: now, ..slots(old(v)@)[i as int] }),
{
    let s = &v[i];
    let t = ServerSlot {
        root: s.root.clone(),
        server_name: s.server_name.clone(),
        started_at: s.started_at,
        last_used_at: now,
        open_files: s.open_files,
        attached_folders: s.attached_folders,
    };
    let ghost before = slots(v@);
    let ghost tv = t@;
    v.set(i, t);
    assert(slots(v@) =~= before.update(i as int, tv));
}

/// Of the first `n` sessions, the position of the most recently used; of several, the last.
pub open spec fn most_recent(s: Seq<Slot>, n: int) -> int
    decreases n,
{
    if n <= 1 {
        0
    } else {
        let i = most_recent(s, n - 1);
        if s[n - 1].last_used_at >= s[i].last_used_at {
            n - 1
        } else {
            i
        }
    }
}

/// Picks a running server of a language to query, and records its use: the one server, or the most
/// recently used session. Gives the root that it was started for.
pub fn pick_session(state: &mut LanguageState, now: u64) -> (r: Option<String>)
    ensures
        match old(state)@.strategy {
            Some(Strategy::MultiRoot(s)) => opt_view(r) == Some(s.root) && final(state)@ == old(state)@,
            Some(Strategy::LruPerRoot(s)) => if s.len() == 0 {
                r is None && final(state)@ == old(state)@
            } else {
                let i = most_recent(s, s.len() as int);
                &&& opt_view(r) == Some(s[i].root)
                &&& final(state)@ == (Servers {
                    strategy: Some(Strategy::LruPerRoot(s.update(i, Slot { last_used_at: now, ..s[i] }))),
                    ..old(state)@
                })
            },
            None => r is None && final(state)@ == old(state)@,
        },
{
    match &mut state.strategy {
        Some(ServerStrategy::MultiRoot(s)) => Some(s.root.clone()),
        Some(ServerStrategy::LruPerRoot(v)) => {
            if v.len() == 0 {
                return None;
            }
            let ghost all = slots(v@);
            let mut best: usize = 0;
            let mut i: usize = 1;
            while i < v.len()
                invariant
                    1 <= i <= v@.len(),
                    best < i,
                    all == slots(v@),
                    best == most_recent(all, i as int),
                decreases v@.len() - i,
            {
                assert(all[i as int] == v@[i as int]@ && all[best as int] == v@[best as int]@);
                if v[i].last_used_at >= v[best].last_used_at {
                    best = i;
                }
                i = i + 1;
            }
            let root = v[best].root.clone();
            touch_at(v, best, now);
            Some(root)
        },
        None => None,
    }
}

// ── All languages ───────────────────────────────────────────────────────────

/// A language whose servers may be shut down to make room for another: it is not in use, and it was
/// last used at this time, where that is known.
pub struct EvictionCandidate {
    pub language: Language,
    pub ready: bool,
    pub last_used: Option<u64>,
}

/// When a candidate was last used; where that is not known, now.
pub open spec fn use_time(c: EvictionCandidate, now: u64) -> u64 {
    match c.last_used {
        Some(t) => t,
        None => now,
    }
}

/// A running language other than the one that needs room.
pub open spec fn may_leave(c: EvictionCandidate, current: Language) -> bool {
    c.language != current && c.ready
}

/// Of the first `n` candidates, the position of the least recently used that may leave; of several,
/// the first.
pub open spec fn language_victim(s: Seq<EvictionCandidate>, current: Language, now: u64, n: int) -> Option<int>
    decreases n,
{
    if n <= 0 {
        None
    } else {
        let rest = language_victim(s, current, now, n - 1);
        if !may_leave(s[n - 1], current) {
            rest
        } else {
            match rest {
                Some(i) => if use_time(s[n - 1], now) < use_time(s[i], now) {
                    Some(n - 1)
                } else {
                    Some(i)
                },
                None => Some(n - 1),
            }
        }
    }
}

/// Tells which language has to be shut down before the servers of `current` are started: none where
/// there is no limit or it is not reached.
fn pick_language(
    candidates: &Vec<EvictionCandidate>,
    current: Language,
    active: usize,
    max: Option<usize>,
    now: u64,
) -> (r: Option<Language>)
    ensures
        match max {
            Some(m) => if active < m {
                r is None
            } else {
                match language_victim(candidates@, current, now, candidates@.len() as int) {
                    Some(i) => r == Some(candidates@[i].language),
                    None => r is None,
                }
            },
            None => r is None,
        },
{
    let limit: usize = match max {
        Some(m) => m,
        None => {
            return None;
        },
    };
    if active < limit {
        return None;
    }
    let mut best: Option<usize> = None;
    let mut i: usize = 0;
    while i < candidates.len()
        invariant
            0 <= i <= candidates@.len(),
            match best {
                Some(b) => b < i && language_victim(candidates@, current, now, i as int) == Some(b as int),
                None => language_victim(candidates@, current, now, i as int) is None,
            },
        decreases candidates@.len() - i,
    {
        let c = &candidates[i];
        if c.language != current && c.ready {
            let used: u64 = match c.last_used {
                Some(t) => t,
                None => now,
            };
            best = match best {
                Some(b) => {
                    let earlier: u64 = match candidates[b].last_used {
                        Some(t) => t,
                        None => now,
                    };
                    if used < earlier {
                        Some(i)
                    } else {
                        Some(b)
                    }
                },
                None => Some(i),
            };
        }
        i = i + 1;
    }
    match best {
        Some(b) => Some(candidates[b].language),
        None => None,
    }
}

/// Why a server is not ready for queries.
#[derive(Debug)]
pub enum NotReadyReason {
    /// The server process has not been started yet.
    NotStarted,
    /// The server crashed too often.
    Failed(String),
    /// No server is configured for this language.
    NotFound,
}

impl NotReadyReason {
    /// Says why.
    pub fn message(&self) -> (r: String)
        ensures
            r@ == match *self {
                NotReadyReason::NotStarted => "server not yet started"@,
                NotReadyReason::Failed(reason) => "server failed: "@ + reason@,
                NotReadyReason::NotFound => "no server configured for this scope"@,
            },
    {
        match self {
            NotReadyReason::NotStarted => "server not yet started".to_string(),
            NotReadyReason::Failed(reason) => {
                let mut m = "server failed: ".to_string();
                m.append(reason.as_str());
                m
            },
            NotReadyReason::NotFound => "no server configured for this scope".to_string(),
        }
    }
}

/// Status info for a language server.
#[derive(Debug)]
pub struct ServerStatus {
    pub server_name: String,
    pub language: String,
    pub status: &'static str,
    pub uptime_secs: u64,
    pub open_files: usize,
    pub attached_folders: usize,
    pub total_folders: usize,
}

/// The mathematical value of a [`ServerStatus`].
#[verifier::ext_equal]
pub struct Status {
    pub server_name: Seq<char>,
    pub language: Seq<char>,
    pub status: Seq<char>,
    pub uptime_secs: u64,
    pub open_files: usize,
    pub attached_folders: usize,
    pub total_folders: usize,
}

impl View for ServerStatus {
    type V = Status;

    open spec fn view(&self) -> Status {
        Status {
            server_name: self.server_name@,
            language: self.language@,
            status: self.status@,
            uptime_secs: self.uptime_secs,
            open_files: self.open_files,
            attached_folders: self.attached_folders,
            total_folders: self.total_folders,
        }
    }
}

/// The name of the preferred server for a language.
pub fn default_server_name(lang: Language) -> (r: String)
    ensures
        r@ == servers_for(lang)[0].binary_name,
{
    match get_entry(lang) {
        Some(e) => e.binary_name.to_string(),
        None => lang.name().to_string(),
    }
}

/// The status of a language none of whose servers can be told anything of.
pub open spec fn bare_status(lang: Language, status: Seq<char>, total_folders: usize) -> Status {
    Status {
        server_name: servers_for(lang)[0].binary_name,
        language: lang.label(),
        status,
        uptime_secs: 0,
        open_files: 0,
        attached_folders: 0,
        total_folders,
    }
}

fn make_bare_status(lang: Language, status: &'static str, total_folders: usize) -> (r: ServerStatus)
    ensures
        r@ == bare_status(lang, status@, total_folders),
{
    ServerStatus {
        server_name: default_server_name(lang),
        language: lang.name().to_string(),
        status,
        uptime_secs: 0,
        open_files: 0,
        attached_folders: 0,
        total_folders,
    }
}

/// Builds the status of a language whose server was not started yet.
pub fn pending_status(lang: Language, total_folders: usize) -> (r: ServerStatus)
    ensures
        r@ == bare_status(lang, "pending"@, total_folders),
{
    make_bare_status(lang, "pending", total_folders)
}

/// Builds the status of a language whose server is answering a query.
pub fn busy_status(lang: Language, total_folders: usize) -> (r: ServerStatus)
    ensures
        r@ == bare_status(lang, "ready"@, total_folders),
{
    make_bare_status(lang, "ready", total_folders)
}

/// The earliest start of the sessions.
pub open spec fn earliest_start(s: Seq<Slot>) -> u64
    decreases s.len(),
{
    if s.len() <= 1 {
        s[0].started_at
    } else {
        let rest = earliest_start(s.drop_last());
        if s.last().started_at < rest {
            s.last().started_at
        } else {
            rest
        }
    }
}

/// Open files of all sessions together, as far as the machine counts.
pub open spec fn files_open(s: Seq<Slot>) -> int
    decreases s.len(),
{
    if s.len() == 0 {
        0
    } else {
        files_open(s.drop_last()) + s.last().open_files
    }
}

/// Whole seconds from one reading of the clock to a later one.
pub open spec fn elapsed(start: u64, now: u64) -> u64 {
    if now >= start {
        ((now - start) / 1000) as u64
    } else {
        0
    }
}

/// Whole seconds from one reading of the clock to a later one.
pub fn seconds_between(start: u64, now: u64) -> (r: u64)
    ensures
        r == elapsed(start, now),
{
    if now >= start {
        (now - start) / 1000
    } else {
        0
    }
}

/// The status of a language.
pub open spec fn status_of(lang: Language, s: Servers, total_folders: usize, now: u64) -> Status {
    match s.strategy {
        Some(Strategy::MultiRoot(slot)) => Status {
            server_name: slot.server_name,
            language: lang.label(),
            status: "ready"@,
            uptime_secs: elapsed(slot.started_at, now),
            open_files: slot.open_files,
            attached_folders: slot.attached_folders,
            total_folders,
        },
        Some(Strategy::LruPerRoot(v)) => if v.len() > 0 {
            Status {
                server_name: v[0].server_name,
                language: lang.label(),
                status: "ready"@,
                uptime_secs: elapsed(earliest_start(v), now),
                open_files: files_open(v) as usize,
                attached_folders: v.len() as usize,
                total_folders,
            }
        } else {
            bare_status(
                lang,
                if s.failed is Some {
                    "failed"@
                } else {
                    "pending"@
                },
                total_folders,
            )
        },
        None => bare_status(
            lang,
            if s.failed is Some {
                "failed"@
            } else {
                "pending"@
            },
            total_folders,
        ),
    }
}

proof fn files_open_mono(s: Seq<Slot>, n: int)
    requires
        0 <= n <= s.len(),
    ensures
        0 <= files_open(s.take(n)) <= files_open(s),
    decreases s.len() - n,
{
    if n < s.len() {
        files_open_mono(s, n + 1);
        assert(s.take(n + 1).drop_last() =~= s.take(n));
        files_open_nonneg(s.take(n));
    } else {
        assert(s.take(n) =~= s);
        files_open_nonneg(s);
    }
}

proof fn files_open_nonneg(s: Seq<Slot>)
    ensures
        files_open(s) >= 0,
    decreases s.len(),
{
    if s.len() > 0 {
        files_open_nonneg(s.drop_last());
    }
}

/// Builds the status of a language.
pub fn slot_status(lang: Language, state: &LanguageState, total_folders: usize, now: u64) -> (r: ServerStatus)
    requires
        state@.strategy matches Some(Strategy::LruPerRoot(s)) ==> files_open(s) <= usize::MAX,
    ensures
        r@ == status_of(lang, state@, total_folders, now),
{
    match &state.strategy {
        Some(ServerStrategy::MultiRoot(slot)) => ServerStatus {
            server_name: slot.server_name.clone(),
            language: lang.name().to_string(),
            status: "ready",
            uptime_secs: seconds_between(slot.started_at, now),
            open_files: slot.open_files,
            attached_folders: slot.attached_folders,
            total_folders,
        },
        Some(ServerStrategy::LruPerRoot(v)) => {
            if v.len() == 0 {
                return make_bare_status(
                    lang,
                    if state.failed.is_some() {
                        "failed"
                    } else {
                        "pending"
                    },
                    total_folders,
                );
            }
            let ghost all = slots(v@);
            let mut oldest: u64 = v[0].started_at;
            let mut files: usize = v[0].open_files;
            let mut i: usize = 1;
            proof {
                assert(all.take(1).drop_last() =~= Seq::empty());
                assert(all.take(1).last() == v@[0]@);
                assert(files_open(all.take(1).drop_last()) == 0);
            }
            while i < v.len()
                invariant
                    1 <= i <= v@.len(),
                    all == slots(v@),
                    files_open(all) <= usize::MAX,
                    oldest == earliest_start(all.take(i as int)),
                    files == files_open(all.take(i as int)),
                decreases v@.len() - i,
            {
                proof {
                    assert(all.take(i + 1).drop_last() =~= all.take(i as int));
                    assert(all.take(i + 1).last() == v@[i as int]@);
                    files_open_mono(all, i + 1);
                }
                if v[i].started_at < oldest {
                    oldest = v[i].started_at;
                }
                files = files + v[i].open_files;
                i = i + 1;
            }
            assert(all.take(i as int) =~= all);
            ServerStatus {
                server_name: v[0].server_name.clone(),
                language: lang.name().to_string(),
                status: "ready",
                uptime_secs: seconds_between(oldest, now),
                open_files: files,
                attached_folders: v.len(),
                total_folders,
            }
        },
        None => make_bare_status(
            lang,
            if state.failed.is_some() {
                "failed"
            } else {
                "pending"
            },
            total_folders,
        ),
    }
}

// ── Workspaces ──────────────────────────────────────────────────────────────

/// The views of workspace roots with their languages.
pub open spec fn root_views(v: Seq<(Language, String)>) -> Seq<(Language, Seq<char>)> {
    Seq::new(v.len(), |i: int| (v[i].0, v[i].1@))
}

/// Of the first `n` workspace roots of a language that a file lies under, the deepest; of several,
/// the last.
pub open spec fn nearest(roots: Seq<(Language, Seq<char>)>, file: Seq<char>, lang: Language, n: int) -> Option<int>
    decreases n,
{
    if n <= 0 {
        None
    } else {
        let rest = nearest(roots, file, lang, n - 1);
        if roots[n - 1].0 != lang || !under(file, roots[n - 1].1) {
            rest
        } else {
            match rest {
                Some(i) => if components(roots[n - 1].1).len() >= components(roots[i].1).len() {
                    Some(n - 1)
                } else {
                    Some(i)
                },
                None => Some(n - 1),
            }
        }
    }
}

/// The first workspace root of a language, or the number of all where there is none.
pub open spec fn first_root(roots: Seq<(Language, Seq<char>)>, lang: Language) -> int
    decreases roots.len(),
{
    if roots.len() == 0 || roots[0].0 == lang {
        0
    } else {
        1 + first_root(roots.drop_first(), lang)
    }
}

/// The workspace roots of a language, in order.
pub open spec fn roots_of(roots: Seq<(Language, Seq<char>)>, lang: Language) -> Seq<Seq<char>>
    decreases roots.len(),
{
    if roots.len() == 0 {
        Seq::empty()
    } else if roots.last().0 == lang {
        roots_of(roots.drop_last(), lang).push(roots.last().1)
    } else {
        roots_of(roots.drop_last(), lang)
    }
}

/// Some workspace root is of the language.
pub open spec fn has_language(roots: Seq<(Language, Seq<char>)>, lang: Language) -> bool {
    exists|i: int| 0 <= i < roots.len() && (#[trigger] roots[i]).0 == lang
}

/// The languages of the workspace roots, by name.
pub open spec fn languages_of(roots: Seq<(Language, Seq<char>)>) -> Seq<Language> {
    named_languages().filter(|l: Language| has_language(roots, l))
}

/// All languages by name.
pub open spec fn named_languages() -> Seq<Language> {
    seq![Language::Cpp, Language::Go, Language::JavaScript, Language::Rust, Language::TypeScript]
}

/// The nearest root is one of the language that the file lies under, and no deeper one is.
pub proof fn nearest_is_deepest(roots: Seq<(Language, Seq<char>)>, file: Seq<char>, lang: Language, n: int)
    requires
        0 <= n <= roots.len(),
    ensures
        match nearest(roots, file, lang, n) {
            Some(i) => 0 <= i < n && roots[i].0 == lang && under(file, roots[i].1) && forall|k: int|
                0 <= k < n && (#[trigger] roots[k]).0 == lang && under(file, roots[k].1) ==> components(
                    roots[k].1,
                ).len() <= components(roots[i].1).len(),
            None => forall|k: int| 0 <= k < n && (#[trigger] roots[k]).0 == lang ==> !under(file, roots[k].1),
        },
    decreases n,
{
    if n > 0 {
        nearest_is_deepest(roots, file, lang, n - 1);
    }
}

/// The languages of the roots, each once, in order of their first root.
pub open spec fn languages_in_order(roots: Seq<(Language, Seq<char>)>) -> Seq<Language>
    decreases roots.len(),
{
    if roots.len() == 0 {
        Seq::empty()
    } else {
        let rest = languages_in_order(roots.drop_last());
        if rest.contains(roots.last().0) {
            rest
        } else {
            rest.push(roots.last().0)
        }
    }
}

/// Languages with the number of their roots.
pub open spec fn with_folders(langs: Seq<Language>, roots: Seq<(Language, Seq<char>)>) -> Seq<(Language, usize)> {
    Seq::new(langs.len(), |i: int| (langs[i], roots_of(roots, langs[i]).len() as usize))
}

fn holds_language(list: &Vec<Language>, lang: Language) -> (r: bool)
    ensures
        r == list@.contains(lang),
{
    let mut i: usize = 0;
    while i < list.len()
        invariant
            0 <= i <= list@.len(),
            forall|k: int| 0 <= k < i ==> list@[k] != lang,
        decreases list@.len() - i,
    {
        if list[i] == lang {
            return true;
        }
        i = i + 1;
    }
    false
}

/// Readiness summary of all languages.
#[derive(Debug)]
pub struct Readiness {
    pub ready: usize,
    pub total: usize,
}

impl Readiness {
    /// Whether there are languages and all of them are ready.
    pub fn is_all_ready(&self) -> (r: bool)
        ensures
            r == (self.total > 0 && self.ready >= self.total),
    {
        self.total > 0 && self.ready >= self.total
    }
}

// ── The multiplexer ─────────────────────────────────────────────────────────

/// What a look at the servers of a language shows: `None` where they are answering a query.
pub open spec fn look_views(v: Seq<(Language, Option<&LanguageState>)>) -> Seq<(Language, Option<Servers>)> {
    Seq::new(
        v.len(),
        |i: int|
            (
                v[i].0,
                match v[i].1 {
                    Some(s) => Some(s@),
                    None => None,
                },
            ),
    )
}

/// The first look at a language.
pub open spec fn look_at(looks: Seq<(Language, Option<Servers>)>, lang: Language) -> Option<Option<Servers>>
    decreases looks.len(),
{
    if looks.len() == 0 {
        None
    } else if looks[0].0 == lang {
        Some(looks[0].1)
    } else {
        look_at(looks.drop_first(), lang)
    }
}

/// A language whose servers are answering a query, or run.
pub open spec fn is_active(looks: Seq<(Language, Option<Servers>)>, lang: Language) -> bool {
    match look_at(looks, lang) {
        Some(Some(s)) => s.ready(),
        Some(None) => true,
        None => false,
    }
}

/// A language whose servers run and are not answering a query.
pub open spec fn is_idle(looks: Seq<(Language, Option<Servers>)>, lang: Language) -> bool {
    match look_at(looks, lang) {
        Some(Some(s)) => s.ready(),
        _ => false,
    }
}

/// The status of a language after a look at it.
pub open spec fn looked_status(
    looks: Seq<(Language, Option<Servers>)>,
    lang: Language,
    total_folders: usize,
    now: u64,
) -> Status {
    match look_at(looks, lang) {
        Some(Some(s)) => status_of(lang, s, total_folders, now),
        Some(None) => bare_status(lang, "ready"@, total_folders),
        None => bare_status(lang, "pending"@, total_folders),
    }
}

/// The views of statuses.
pub open spec fn status_views(v: Seq<ServerStatus>) -> Seq<Status> {
    Seq::new(v.len(), |i: int| v[i]@)
}

/// When a language was last used, where that is known.
pub open spec fn used_at(last_used: Seq<(Language, u64)>, lang: Language) -> Option<u64>
    decreases last_used.len(),
{
    if last_used.len() == 0 {
        None
    } else if last_used[0].0 == lang {
        Some(last_used[0].1)
    } else {
        used_at(last_used.drop_first(), lang)
    }
}

fn find_look<'a>(looks: &Vec<(Language, Option<&'a LanguageState>)>, lang: Language) -> (r: Option<
    Option<&'a LanguageState>,
>)
    ensures
        match r {
            Some(Some(s)) => look_at(look_views(looks@), lang) == Some(Some(s@)),
            Some(None) => look_at(look_views(looks@), lang) == Some(None::<Servers>),
            None => look_at(look_views(looks@), lang) is None,
        },
        r matches Some(l) ==> exists|i: int| 0 <= i < looks@.len() && (#[trigger] looks@[i]).1 == l,
{
    let ghost all = look_views(looks@);
    let mut i: usize = 0;
    assert(all.skip(0) =~= all);
    while i < looks.len()
        invariant
            0 <= i <= looks@.len(),
            all == look_views(looks@),
            look_at(all, lang) == look_at(all.skip(i as int), lang),
        decreases looks@.len() - i,
    {
        assert(all.skip(i as int)[0] == all[i as int]);
        assert(all.skip(i as int).drop_first() =~= all.skip(i + 1));
        if looks[i].0 == lang {
            assert(looks@[i as int].1 == looks@[i as int].1);
            return Some(looks[i].1);
        }
        i = i + 1;
    }
    None
}

/// The workspaces of a project and the limits for their servers.
pub struct LspMultiplexer {
    pub project_root: String,
    pub workspace_roots: Vec<(Language, String)>,
    /// Greatest number of concurrent sessions of one language.
    pub max_lru_sessions: usize,
    /// Roots whose sessions are never evicted.
    pub priority_roots: Vec<String>,
    /// Greatest number of languages whose servers run at once; `None` where there is no limit.
    pub max_language_servers: Option<usize>,
    /// When each language was last used.
    pub last_used: Vec<(Language, u64)>,
}

impl LspMultiplexer {
    /// The views of the workspace roots with their languages.
    pub open spec fn roots(&self) -> Seq<(Language, Seq<char>)> {
        root_views(self.workspace_roots@)
    }

    /// Creates a multiplexer for a project.
    pub fn new(project_root: &str, workspace_roots: Vec<(Language, String)>) -> (r: LspMultiplexer)
        ensures
            r.project_root@ == project_root@,
            r.workspace_roots == workspace_roots,
            r.max_lru_sessions == DEFAULT_MAX_LRU_SESSIONS,
            r.priority_roots@.len() == 0,
            r.max_language_servers is None,
            r.last_used@.len() == 0,
    {
        LspMultiplexer {
            project_root: project_root.to_string(),
            workspace_roots,
            max_lru_sessions: DEFAULT_MAX_LRU_SESSIONS,
            priority_roots: Vec::new(),
            max_language_servers: None,
            last_used: Vec::new(),
        }
    }

    /// Sets the greatest number of concurrent sessions of one language.
    pub fn set_max_lru_sessions(&mut self, max: usize)
        ensures
            *final(self) == (LspMultiplexer { max_lru_sessions: max, ..*old(self) }),
    {
        self.max_lru_sessions = max;
    }

    /// Sets the greatest number of languages whose servers run at once.
    pub fn set_max_language_servers(&mut self, max: usize)
        ensures
            *final(self) == (LspMultiplexer { max_language_servers: Some(max), ..*old(self) }),
    {
        self.max_language_servers = Some(max);
    }

    /// Sets the roots whose sessions are never evicted.
    pub fn set_priority_roots(&mut self, roots: Vec<String>)
        ensures
            *final(self) == (LspMultiplexer { priority_roots: roots, ..*old(self) }),
    {
        self.priority_roots = roots;
    }

    /// The roots whose sessions are never evicted.
    pub fn priority_roots(&self) -> (r: &Vec<String>)
        ensures
            *r == self.priority_roots,
    {
        &self.priority_roots
    }

    /// All workspace roots.
    pub fn workspace_roots(&self) -> (r: &Vec<(Language, String)>)
        ensures
            *r == self.workspace_roots,
    {
        &self.workspace_roots
    }

    /// The project root.
    pub fn project_root(&self) -> (r: &str)
        ensures
            r@ == self.project_root@,
    {
        self.project_root.as_str()
    }

    /// Finds the nearest workspace root for a file: the deepest one of its language that it lies under.
    pub fn find_nearest_workspace(&self, file_path: &str, lang: Language) -> (r: Option<String>)
        ensures
            match nearest(self.roots(), file_path@, lang, self.workspace_roots@.len() as int) {
                Some(i) => opt_view(r) == Some(self.roots()[i].1),
                None => r is None,
            },
    {
        let ghost all = self.roots();
        let mut best: Option<usize> = None;
        let mut i: usize = 0;
        while i < self.workspace_roots.len()
            invariant
                0 <= i <= self.workspace_roots@.len(),
                all == self.roots(),
                match best {
                    Some(b) => b < i && nearest(all, file_path@, lang, i as int) == Some(b as int),
                    None => nearest(all, file_path@, lang, i as int) is None,
                },
            decreases self.workspace_roots@.len() - i,
        {
            let root = self.workspace_roots[i].1.as_str();
            assert(all[i as int] == (self.workspace_roots@[i as int].0, root@));
            if self.workspace_roots[i].0 == lang && path_starts_with(file_path, root) {
                best = match best {
                    Some(b) => {
                        let other = self.workspace_roots[b].1.as_str();
                        assert(all[b as int].1 == other@);
                        if path_depth(root) >= path_depth(other) {
                            Some(i)
                        } else {
                            Some(b)
                        }
                    },
                    None => Some(i),
                };
            }
            i = i + 1;
        }
        match best {
            Some(b) => {
                assert(all[b as int].1 == self.workspace_roots@[b as int].1@);
                Some(self.workspace_roots[b].1.clone())
            },
            None => None,
        }
    }

    /// Gets the first workspace root for a language, or the project root.
    pub fn initial_root(&self, lang: Language) -> (r: String)
        ensures
            ({
                let all = self.roots();
                let i = first_root(all, lang);
                r@ == if 0 <= i < all.len() {
                    all[i].1
                } else {
                    self.project_root@
                }
            }),
    {
        let ghost all = self.roots();
        let mut i: usize = 0;
        assert(all.skip(0) =~= all);
        while i < self.workspace_roots.len()
            invariant
                0 <= i <= self.workspace_roots@.len(),
                all == self.roots(),
                first_root(all, lang) == i + first_root(all.skip(i as int), lang),
            decreases self.workspace_roots@.len() - i,
        {
            assert(all.skip(i as int)[0] == all[i as int]);
            assert(all.skip(i as int).drop_first() =~= all.skip(i + 1));
            if self.workspace_roots[i].0 == lang {
                return self.workspace_roots[i].1.clone();
            }
            i = i + 1;
        }
        self.project_root.clone()
    }

    /// The workspace roots of a language, in order.
    pub fn roots_for_language(&self, lang: Language) -> (r: Vec<String>)
        ensures
            views(r@) == roots_of(self.roots(), lang),
    {
        let ghost all = self.roots();
        let mut out: Vec<String> = Vec::new();
        let mut i: usize = 0;
        assert(all.take(0) =~= Seq::empty());
        assert(views(out@) =~= Seq::empty());
        while i < self.workspace_roots.len()
            invariant
                0 <= i <= self.workspace_roots@.len(),
                all == self.roots(),
                views(out@) == roots_of(all.take(i as int), lang),
            decreases self.workspace_roots@.len() - i,
        {
            assert(all.take(i + 1).drop_last() =~= all.take(i as int));
            assert(all.take(i + 1).last() == all[i as int]);
            if self.workspace_roots[i].0 == lang {
                let ghost before = views(out@);
                out.push(self.workspace_roots[i].1.clone());
                assert(views(out@) =~= before.push(all[i as int].1));
            }
            i = i + 1;
        }
        assert(all.take(i as int) =~= all);
        out
    }

    fn is_language_of(&self, lang: Language) -> (r: bool)
        ensures
            r == has_language(self.roots(), lang),
    {
        let ghost all = self.roots();
        let mut i: usize = 0;
        while i < self.workspace_roots.len()
            invariant
                0 <= i <= self.workspace_roots@.len(),
                all == self.roots(),
                forall|k: int| 0 <= k < i ==> (#[trigger] all[k]).0 != lang,
            decreases self.workspace_roots@.len() - i,
        {
            assert(all[i as int].0 == self.workspace_roots@[i as int].0);
            if self.workspace_roots[i].0 == lang {
                return true;
            }
            i = i + 1;
        }
        false
    }

    /// Gets all unique languages of the workspace roots, by name.
    pub fn unique_languages(&self) -> (r: Vec<Language>)
        ensures
            r@ == languages_of(self.roots()),
    {
        let names = vec![Language::Cpp, Language::Go, Language::JavaScript, Language::Rust, Language::TypeScript];
        let ghost all = named_languages();
        assert(names@ =~= all);
        let ghost p = |l: Language| has_language(self.roots(), l);
        let mut out: Vec<Language> = Vec::new();
        let mut i: usize = 0;
        proof {
            reveal(Seq::filter);
            assert(all.take(0) =~= Seq::empty());
            assert(out@ =~= all.take(0).filter(p));
        }
        while i < names.len()
            invariant
                0 <= i <= names@.len(),
                names@ == all,
                p == (|l: Language| has_language(self.roots(), l)),
                out@ == all.take(i as int).filter(p),
            decreases names@.len() - i,
        {
            proof {
                reveal(Seq::filter);
                assert(all.take(i + 1).drop_last() =~= all.take(i as int));
                assert(all.take(i + 1).last() == names@[i as int]);
            }
            let lang = names[i];
            if self.is_language_of(lang) {
                out.push(lang);
            }
            i = i + 1;
        }
        assert(all.take(i as int) =~= all);
        out
    }

    /// The languages whose status is shown, each with the number of its workspace folders, in order of
    /// their first root.
    fn status_languages(&self) -> (r: Vec<(Language, usize)>)
        ensures
            r@ == with_folders(languages_in_order(self.roots()), self.roots()),
    {
        let ghost roots = self.roots();
        let mut langs: Vec<Language> = Vec::new();
        let mut i: usize = 0;
        assert(roots.take(0) =~= Seq::empty());
        while i < self.workspace_roots.len()
            invariant
                0 <= i <= self.workspace_roots@.len(),
                roots == self.roots(),
                langs@ == languages_in_order(roots.take(i as int)),
            decreases self.workspace_roots@.len() - i,
        {
            assert(roots.take(i + 1).drop_last() =~= roots.take(i as int));
            assert(roots.take(i + 1).last() == roots[i as int]);
            let lang = self.workspace_roots[i].0;
            if !holds_language(&langs, lang) {
                langs.push(lang);
            }
            i = i + 1;
        }
        assert(roots.take(i as int) =~= roots);
        let mut out: Vec<(Language, usize)> = Vec::new();
        let mut k: usize = 0;
        while k < langs.len()
            invariant
                0 <= k <= langs@.len(),
                roots == self.roots(),
                out@ =~= with_folders(langs@, roots).take(k as int),
            decreases langs@.len() - k,
        {
            let lang = langs[k];
            let folders = self.roots_for_language(lang);
            let n: usize = folders.len();
            assert(views(folders@).len() == n);
            out.push((lang, n));
            k = k + 1;
        }
        out
    }

    /// The status of all languages, in order of their first root.
    pub fn status(&self, looks: &Vec<(Language, Option<&LanguageState>)>, now: u64) -> (r: Vec<ServerStatus>)
        requires
            forall|i: int|
                0 <= i < looks@.len() ==> match (#[trigger] looks@[i]).1 {
                    Some(s) => s@.strategy matches Some(Strategy::LruPerRoot(v)) ==> files_open(v) <= usize::MAX,
                    None => true,
                },
        ensures
            status_views(r@) == languages_in_order(self.roots()).map_values(
                |l: Language|
                    looked_status(look_views(looks@), l, roots_of(self.roots(), l).len() as usize, now),
            ),
    {
        let langs = self.status_languages();
        let ghost names = languages_in_order(self.roots());
        let ghost shown = names.map_values(
            |l: Language| looked_status(look_views(looks@), l, roots_of(self.roots(), l).len() as usize, now),
        );
        let mut out: Vec<ServerStatus> = Vec::new();
        let mut i: usize = 0;
        while i < langs.len()
            invariant
                0 <= i <= langs@.len(),
                names == languages_in_order(self.roots()),
                langs@ == with_folders(names, self.roots()),
                shown == names.map_values(
                    |l: Language| looked_status(look_views(looks@), l, roots_of(self.roots(), l).len() as usize, now),
                ),
                status_views(out@) =~= shown.take(i as int),
                forall|k: int|
                    0 <= k < looks@.len() ==> match (#[trigger] looks@[k]).1 {
                        Some(s) => s@.strategy matches Some(Strategy::LruPerRoot(v)) ==> files_open(v) <= usize::MAX,
                        None => true,
                    },
            decreases langs@.len() - i,
        {
            let (lang, folders) = langs[i];
            assert(lang == names[i as int]);
            let status = match find_look(looks, lang) {
                Some(Some(s)) => slot_status(lang, s, folders, now),
                Some(None) => busy_status(lang, folders),
                None => pending_status(lang, folders),
            };
            let ghost before = status_views(out@);
            let ghost last = status@;
            assert(last == shown[i as int]);
            out.push(status);
            assert(status_views(out@) =~= before.push(last));
            assert(shown.take(i + 1) =~= shown.take(i as int).push(last));
            i = i + 1;
        }
        assert(shown.take(i as int) =~= shown);
        out
    }

    /// The languages whose servers are answering a query or run, by name.
    pub fn active_languages(&self, looks: &Vec<(Language, Option<&LanguageState>)>) -> (r: Vec<Language>)
        ensures
            r@ == languages_of(self.roots()).filter(|l: Language| is_active(look_views(looks@), l)),
    {
        let langs = self.unique_languages();
        let ghost p = |l: Language| is_active(look_views(looks@), l);
        let mut out: Vec<Language> = Vec::new();
        let mut i: usize = 0;
        proof {
            reveal(Seq::filter);
            assert(langs@.take(0) =~= Seq::empty());
            assert(out@ =~= langs@.take(0).filter(p));
        }
        while i < langs.len()
            invariant
                0 <= i <= langs@.len(),
                p == (|l: Language| is_active(look_views(looks@), l)),
                out@ == langs@.take(i as int).filter(p),
            decreases langs@.len() - i,
        {
            proof {
                reveal(Seq::filter);
                assert(langs@.take(i + 1).drop_last() =~= langs@.take(i as int));
                assert(langs@.take(i + 1).last() == langs@[i as int]);
            }
            let lang = langs[i];
            let active = match find_look(looks, lang) {
                Some(Some(s)) => s.is_ready(),
                Some(None) => true,
                None => false,
            };
            if active {
                out.push(lang);
            }
            i = i + 1;
        }
        assert(langs@.take(i as int) =~= langs@);
        out
    }

    /// Sums up how many languages have running servers.
    pub fn readiness(&self, looks: &Vec<(Language, Option<&LanguageState>)>) -> (r: Readiness)
        ensures
            r.ready == languages_of(self.roots()).filter(|l: Language| is_active(look_views(looks@), l)).len(),
            r.total == languages_of(self.roots()).len(),
    {
        Readiness { ready: self.active_languages(looks).len(), total: self.unique_languages().len() }
    }

    /// Tells whether the servers of a language run and are not answering a query.
    pub fn is_ready(&self, looks: &Vec<(Language, Option<&LanguageState>)>, lang: Language) -> (r: bool)
        ensures
            r == (has_language(self.roots(), lang) && is_idle(look_views(looks@), lang)),
    {
        if !self.is_language_of(lang) {
            return false;
        }
        match find_look(looks, lang) {
            Some(Some(s)) => s.is_ready(),
            _ => false,
        }
    }

    /// Says why a language has no servers here: no workspace root is of that language.
    pub fn check_language(&self, lang: Language) -> (r: Result<(), String>)
        ensures
            match r {
                Ok(_) => has_language(self.roots(), lang),
                Err(m) => !has_language(self.roots(), lang) && m@ == "no language slot for "@ + lang.label(),
            },
    {
        if self.is_language_of(lang) {
            return Ok(());
        }
        let mut m = "no language slot for ".to_string();
        m.append(lang.name());
        Err(m)
    }

    /// Tells which language answers for a file, and for which workspace root: the nearest, or the
    /// project root where it lies under none.
    pub fn route_for_file(&self, file_path: &str) -> (r: Result<(Language, String), String>)
        ensures
            match r {
                Ok((lang, root)) => {
                    let i = nearest(self.roots(), file_path@, lang, self.roots().len() as int);
                    &&& language_of(file_path@) == Some(lang)
                    &&& has_language(self.roots(), lang)
                    &&& root@ == match i {
                        Some(k) => self.roots()[k].1,
                        None => self.project_root@,
                    }
                },
                Err(m) => match language_of(file_path@) {
                    Some(lang) => !has_language(self.roots(), lang) && m@ == "no language slot for "@ + lang.label(),
                    None => m@ == "unknown language for "@ + file_path@,
                },
            },
    {
        let lang = match language_for_file(file_path) {
            Some(l) => l,
            None => {
                let mut m = "unknown language for ".to_string();
                m.append(file_path);
                return Err(m);
            },
        };
        let root = match self.find_nearest_workspace(file_path, lang) {
            Some(r) => r,
            None => self.project_root.clone(),
        };
        match self.check_language(lang) {
            Ok(_) => Ok((lang, root)),
            Err(m) => Err(m),
        }
    }

    /// Makes room for one more session of a language. Gives the session that has to be shut down.
    pub fn make_room(&self, state: &mut LanguageState) -> (r: Option<ServerSlot>)
        ensures
            match old(state)@.strategy {
                Some(Strategy::LruPerRoot(s)) => {
                    let i = victim(s, views(self.priority_roots@), s.len() as int);
                    &&& final(state)@ == (Servers {
                        strategy: Some(Strategy::LruPerRoot(after_eviction(s, views(self.priority_roots@), self.max_lru_sessions as int))),
                        ..old(state)@
                    })
                    &&& match r {
                        Some(gone) => s.len() >= self.max_lru_sessions && i is Some && gone@ == s[i->0],
                        None => s.len() < self.max_lru_sessions || i is None,
                    }
                },
                _ => final(state)@ == old(state)@ && r is None,
            },
    {
        match &mut state.strategy {
            Some(ServerStrategy::LruPerRoot(v)) => {
                if v.len() < self.max_lru_sessions {
                    return None;
                }
                match find_victim(v, &self.priority_roots) {
                    Some(i) => {
                        let ghost before = slots(v@);
                        let gone = v.remove(i);
                        assert(slots(v@) =~= before.remove(i as int));
                        Some(gone)
                    },
                    None => None,
                }
            },
            _ => None,
        }
    }

    /// Notes that a language was just used.
    pub fn touch_language(&mut self, lang: Language, now: u64)
        ensures
            final(self).last_used@ == seq![(lang, now)] + old(self).last_used@.filter(|e: (Language, u64)| e.0 != lang),
            *final(self) == (LspMultiplexer { last_used: final(self).last_used, ..*old(self) }),
    {
        self.forget_language(lang);
        let ghost rest = self.last_used@;
        self.last_used.insert(0, (lang, now));
        assert(self.last_used@ =~= seq![(lang, now)] + rest);
    }

    /// Forgets when a language was used.
    pub fn forget_language(&mut self, lang: Language)
        ensures
            final(self).last_used@ == old(self).last_used@.filter(|e: (Language, u64)| e.0 != lang),
            *final(self) == (LspMultiplexer { last_used: final(self).last_used, ..*old(self) }),
    {
        let ghost all = self.last_used@;
        let ghost p = |e: (Language, u64)| e.0 != lang;
        let mut kept: Vec<(Language, u64)> = Vec::new();
        let mut i: usize = 0;
        proof {
            reveal(Seq::filter);
            assert(all.take(0) =~= Seq::empty());
            assert(kept@ =~= all.take(0).filter(p));
        }
        while i < self.last_used.len()
            invariant
                0 <= i <= all.len(),
                self.last_used@ == all,
                *self == *old(self),
                p == (|e: (Language, u64)| e.0 != lang),
                kept@ == all.take(i as int).filter(p),
            decreases all.len() - i,
        {
            proof {
                reveal(Seq::filter);
                assert(all.take(i + 1).drop_last() =~= all.take(i as int));
                assert(all.take(i + 1).last() == all[i as int]);
            }
            let (l, t) = self.last_used[i];
            if l != lang {
                kept.push((l, t));
            }
            i = i + 1;
        }
        assert(all.take(i as int) =~= all);
        self.last_used = kept;
    }

    fn last_use(&self, lang: Language) -> (r: Option<u64>)
        ensures
            r == used_at(self.last_used@, lang),
    {
        let ghost all = self.last_used@;
        let mut i: usize = 0;
        assert(all.skip(0) =~= all);
        while i < self.last_used.len()
            invariant
                0 <= i <= all.len(),
                self.last_used@ == all,
                used_at(all, lang) == used_at(all.skip(i as int), lang),
            decreases all.len() - i,
        {
            assert(all.skip(i as int)[0] == all[i as int]);
            assert(all.skip(i as int).drop_first() =~= all.skip(i + 1));
            let (l, t) = self.last_used[i];
            if l == lang {
                return Some(t);
            }
            i = i + 1;
        }
        None
    }

    /// The languages that may have to leave, by name.
    pub open spec fn candidates(&self, looks: Seq<(Language, Option<Servers>)>) -> Seq<EvictionCandidate> {
        languages_of(self.roots()).map_values(
            |l: Language|
                (EvictionCandidate { language: l, ready: is_idle(looks, l), last_used: used_at(self.last_used@, l) }),
        )
    }

    /// Tells which language has to be shut down before the servers of `current` are started: none
    /// where there is no limit or it is not reached, otherwise the least recently used of those that
    /// run and are not answering a query.
    pub fn evict_global_lru(
        &self,
        looks: &Vec<(Language, Option<&LanguageState>)>,
        current: Language,
        now: u64,
    ) -> (r: Option<Language>)
        ensures
            ({
                let active = languages_of(self.roots()).filter(|l: Language| is_active(look_views(looks@), l));
                let all = self.candidates(look_views(looks@));
                match self.max_language_servers {
                    Some(max) => if active.len() < max {
                        r is None
                    } else {
                        match language_victim(all, current, now, all.len() as int) {
                            Some(i) => r == Some(all[i].language),
                            None => r is None,
                        }
                    },
                    None => r is None,
                }
            }),
    {
        let langs = self.unique_languages();
        let ghost all = self.candidates(look_views(looks@));
        let mut candidates: Vec<EvictionCandidate> = Vec::new();
        let mut i: usize = 0;
        while i < langs.len()
            invariant
                0 <= i <= langs@.len(),
                langs@ == languages_of(self.roots()),
                all == self.candidates(look_views(looks@)),
                candidates@ =~= all.take(i as int),
            decreases langs@.len() - i,
        {
            let lang = langs[i];
            let ready = match find_look(looks, lang) {
                Some(Some(s)) => s.is_ready(),
                _ => false,
            };
            candidates.push(EvictionCandidate { language: lang, ready, last_used: self.last_use(lang) });
            i = i + 1;
        }
        assert(candidates@ =~= all);
        let active: usize = self.active_languages(looks).len();
        pick_language(&candidates, current, active, self.max_language_servers, now)
    }

    /// The workspace roots that have priority, with their languages.
    pub fn priority_workspaces(&self) -> (r: Vec<(Language, String)>)
        ensures
            root_views(r@) == self.roots().filter(
                |w: (Language, Seq<char>)| is_priority(w.1, views(self.priority_roots@)),
            ),
    {
        let ghost all = self.roots();
        let ghost p = |w: (Language, Seq<char>)| is_priority(w.1, views(self.priority_roots@));
        let mut out: Vec<(Language, String)> = Vec::new();
        let mut i: usize = 0;
        proof {
            reveal(Seq::filter);
            assert(all.take(0) =~= Seq::empty());
            assert(root_views(out@) =~= all.take(0).filter(p));
        }
        while i < self.workspace_roots.len()
            invariant
                0 <= i <= self.workspace_roots@.len(),
                all == self.roots(),
                p == (|w: (Language, Seq<char>)| is_priority(w.1, views(self.priority_roots@))),
                root_views(out@) == all.take(i as int).filter(p),
            decreases self.workspace_roots@.len() - i,
        {
            proof {
                reveal(Seq::filter);
                assert(all.take(i + 1).drop_last() =~= all.take(i as int));
                assert(all.take(i + 1).last() == all[i as int]);
            }
            let root = &self.workspace_roots[i];
            if has_priority(root.1.as_str(), &self.priority_roots) {
                let ghost before = root_views(out@);
                out.push((root.0, root.1.clone()));
                assert(root_views(out@) =~= before.push(all[i as int]));
            }
            i = i + 1;
        }
        assert(all.take(i as int) =~= all);
        out
    }
}

// ── Warm-up files ───────────────────────────────────────────────────────────

/// A source file of a language.
pub open spec fn is_source(path: Seq<char>, lang: Language) -> bool {
    match extension(path) {
        Some(ext) => lang.suffixes().contains(ext),
        None => false,
    }
}

/// The first source file of a language.
pub open spec fn first_source(files: Seq<Seq<char>>, lang: Language) -> Option<Seq<char>>
    decreases files.len(),
{
    if files.len() == 0 {
        None
    } else if is_source(files[0], lang) {
        Some(files[0])
    } else {
        first_source(files.drop_first(), lang)
    }
}

/// The directories in which a file to warm a server up is looked for, in order.
pub fn warmup_dirs(workspace_root: &str) -> (r: Vec<String>)
    ensures
        views(r@) == seq![
            joined(workspace_root@, "src"@),
            joined(workspace_root@, "lib"@),
            workspace_root@,
        ],
{
    let r = vec![path_join(workspace_root, "src"), path_join(workspace_root, "lib"), workspace_root.to_string()];
    assert(views(r@) =~= seq![
        joined(workspace_root@, "src"@),
        joined(workspace_root@, "lib"@),
        workspace_root@,
    ]);
    r
}

/// Finds the first source file of a language among the files of a directory.
pub fn find_first_source_file(files: &Vec<String>, lang: Language) -> (r: Option<String>)
    ensures
        opt_view(r) == first_source(views(files@), lang),
{
    let ghost all = views(files@);
    let mut i: usize = 0;
    assert(all.skip(0) =~= all);
    while i < files.len()
        invariant
            0 <= i <= files@.len(),
            all == views(files@),
            first_source(all, lang) == first_source(all.skip(i as int), lang),
        decreases files@.len() - i,
    {
        assert(all.skip(i as int)[0] == files@[i as int]@);
        assert(all.skip(i as int).drop_first() =~= all.skip(i + 1));
        if let Some(ext) = path_extension(files[i].as_str()) {
            if slice_contains(lang.extensions(), ext.as_str()) {
                return Some(files[i].clone());
            }
        }
        i = i + 1;
    }
    None
}

/// The views of the files of directories.
pub open spec fn listing_views(v: Seq<Vec<String>>) -> Seq<Seq<Seq<char>>> {
    Seq::new(v.len(), |i: int| views(v[i]@))
}

/// The first source file of the first directory that has one.
pub open spec fn warmup_file(dirs: Seq<Seq<Seq<char>>>, lang: Language) -> Option<Seq<char>>
    decreases dirs.len(),
{
    if dirs.len() == 0 {
        None
    } else {
        match first_source(dirs[0], lang) {
            Some(f) => Some(f),
            None => warmup_file(dirs.drop_first(), lang),
        }
    }
}

/// Finds a single representative source file to open for warm-up. `listings` holds the files of
/// each of the directories that [`warmup_dirs`] names.
pub fn find_warmup_file(listings: &Vec<Vec<String>>, lang: Language) -> (r: Option<String>)
    ensures
        opt_view(r) == warmup_file(listing_views(listings@), lang),
{
    let ghost all = listing_views(listings@);
    let mut i: usize = 0;
    assert(all.skip(0) =~= all);
    while i < listings.len()
        invariant
            0 <= i <= listings@.len(),
            all == listing_views(listings@),
            warmup_file(all, lang) == warmup_file(all.skip(i as int), lang),
        decreases listings@.len() - i,
    {
        assert(all.skip(i as int)[0] == views(listings@[i as int]@));
        assert(all.skip(i as int).drop_first() =~= all.skip(i + 1));
        if let Some(f) = find_first_source_file(&listings[i], lang) {
            return Some(f);
        }
        i = i + 1;
    }
    None
}

// ── Laws ────────────────────────────────────────────────────────────────────

/// Eviction never takes a session with priority, and takes at most one.
pub proof fn eviction_spares_priority(s: Seq<Slot>, priority: Seq<Seq<char>>, max: int)
    ensures
        forall|k: int|
            0 <= k < s.len() && is_priority((#[trigger] s[k]).root, priority) ==> after_eviction(
                s,
                priority,
                max,
            ).contains(s[k]),
        s.len() <= after_eviction(s, priority, max).len() + 1,
{
    victim_is_least_recent(s, priority, s.len() as int);
    let r = after_eviction(s, priority, max);
    assert forall|k: int| 0 <= k < s.len() && is_priority((#[trigger] s[k]).root, priority) implies r.contains(
        s[k],
    ) by {
        match victim(s, priority, s.len() as int) {
            Some(i) => if s.len() >= max {
                if k < i {
                    assert(r[k] == s[k]);
                } else {
                    assert(k != i);
                    assert(r[k - 1] == s[k]);
                }
            } else {
                assert(r[k] == s[k]);
            },
            None => {
                assert(r[k] == s[k]);
            },
        }
    }
}

/// After room was made, one more session keeps the limit, unless all sessions have priority.
pub proof fn limit_is_kept(s: Seq<Slot>, priority: Seq<Seq<char>>, max: int, slot: Slot)
    requires
        s.len() <= max,
        0 < max,
        exists|k: int| 0 <= k < s.len() && !is_priority((#[trigger] s[k]).root, priority),
    ensures
        with_session(after_eviction(s, priority, max), slot).len() <= max,
{
    victim_is_least_recent(s, priority, s.len() as int);
    root_index_is_first(after_eviction(s, priority, max), slot.root);
}

/// Sessions keep distinct roots when one is started, used, evicted or found dead.
pub proof fn roots_stay_distinct(s: Seq<Slot>, slot: Slot, priority: Seq<Seq<char>>, max: int, dead: Seq<Seq<char>>, now: u64)
    requires
        roots_distinct(s),
    ensures
        roots_distinct(with_session(s, slot)),
        roots_distinct(after_eviction(s, priority, max)),
        roots_distinct(live_slots(s, dead)),
        roots_distinct(touched(s, slot.root, now)),
{
    root_index_is_first(s, slot.root);
    victim_is_least_recent(s, priority, s.len() as int);
    let r = with_session(s, slot);
    let n = root_index(s, slot.root);
    assert forall|i: int, j: int| 0 <= i < j < r.len() implies !same_path((#[trigger] r[i]).root, (
    #[trigger] r[j]).root) by {
        if n < s.len() {
            assert(same_path(s[n].root, slot.root));
            assert(!same_path(s[i].root, s[j].root));
        } else if j == s.len() {
            assert(r[i] == s[i]);
        } else {
            assert(r[i] == s[i] && r[j] == s[j]);
        }
    }
    let e = after_eviction(s, priority, max);
    assert forall|i: int, j: int| 0 <= i < j < e.len() implies !same_path((#[trigger] e[i]).root, (
    #[trigger] e[j]).root) by {
        if e.len() < s.len() {
            let v = victim(s, priority, s.len() as int)->0;
            let a = if i < v {
                i
            } else {
                i + 1
            };
            let b = if j < v {
                j
            } else {
                j + 1
            };
            assert(e[i] == s[a] && e[j] == s[b]);
        } else {
            assert(e[i] == s[i] && e[j] == s[j]);
        }
    }
    live_slots_distinct(s, dead);
    let t = touched(s, slot.root, now);
    assert forall|i: int, j: int| 0 <= i < j < t.len() implies !same_path((#[trigger] t[i]).root, (
    #[trigger] t[j]).root) by {
        assert(t[i].root == s[i].root && t[j].root == s[j].root);
    }
}

proof fn live_slots_distinct(s: Seq<Slot>, dead: Seq<Seq<char>>)
    requires
        roots_distinct(s),
    ensures
        roots_distinct(live_slots(s, dead)),
        forall|i: int| 0 <= i < live_slots(s, dead).len() ==> s.contains(#[trigger] live_slots(s, dead)[i]),
    decreases s.len(),
{
    if s.len() > 0 {
        let init = s.drop_last();
        let n = s.len() - 1;
        assert forall|i: int, j: int| 0 <= i < j < init.len() implies !same_path((#[trigger] init[i]).root, (
        #[trigger] init[j]).root) by {
            assert(init[i] == s[i] && init[j] == s[j]);
        }
        live_slots_distinct(init, dead);
        let f = live_slots(init, dead);
        let r = live_slots(s, dead);
        assert forall|i: int| 0 <= i < r.len() implies s.contains(#[trigger] r[i]) by {
            if i < f.len() {
                assert(init.contains(f[i]));
                let k = choose|k: int| 0 <= k < init.len() && init[k] == f[i];
                assert(s[k] == r[i]);
            } else {
                assert(s[n] == r[i]);
            }
        }
        assert forall|i: int, j: int| 0 <= i < j < r.len() implies !same_path((#[trigger] r[i]).root, (
        #[trigger] r[j]).root) by {
            assert(r[i] == f[i]);
            if j < f.len() {
                assert(r[j] == f[j]);
            } else {
                assert(init.contains(f[i]));
                let k = choose|k: int| 0 <= k < init.len() && init[k] == f[i];
                assert(s[k] == f[i]);
                assert(!same_path(s[k].root, s[n].root));
            }
        }
    }
}

/// A server that crashes again and again is given up: once it has failed, it stays refused until
/// it is reset.
pub proof fn failure_is_permanent(s: Servers, alive: bool, uptime_secs: u64, dead: Seq<Seq<char>>)
    requires
        s.failed is Some,
    ensures
        after_check(s, alive, uptime_secs, dead) == s,
{
}

/// A crash counts: the server is either started again with one crash more on its account, or given
/// up with its fifth.
pub proof fn crash_counts(s: Servers, uptime_secs: u64, dead: Seq<Seq<char>>)
    requires
        s.failed is None,
        s.strategy is Some,
        s.strategy->0 is MultiRoot,
        s.crash_count < MAX_CRASHES,
    ensures
        after_check(s, false, uptime_secs, dead).crash_count == s.crash_count + 1,
        after_check(s, false, uptime_secs, dead).failed is Some <==> s.crash_count + 1 == MAX_CRASHES,
{
}

/// The wait before a restart does not shrink from crash to crash, and never exceeds a minute.
pub proof fn backoff_grows(a: u32, b: u32)
    requires
        a <= b,
    ensures
        backoff_secs(a) <= backoff_secs(b) <= 60,
{
}

/// The language that makes room is not the one that needs it; its servers run and are not answering
/// a query, and no other such language was used less recently. Where none makes room, there is no
/// such language.
pub proof fn language_victim_is_least_recent(s: Seq<EvictionCandidate>, current: Language, now: u64, n: int)
    requires
        0 <= n <= s.len(),
    ensures
        match language_victim(s, current, now, n) {
            Some(i) => 0 <= i < n && may_leave(s[i], current) && forall|k: int|
                0 <= k < n && may_leave(#[trigger] s[k], current) ==> use_time(s[i], now) <= use_time(s[k], now),
            None => forall|k: int| 0 <= k < n ==> !may_leave(#[trigger] s[k], current),
        },
    decreases n,
{
    if n > 0 {
        language_victim_is_least_recent(s, current, now, n - 1);
    }
}

/// Leaving a language out forgets its use, and no other.
pub proof fn forgotten_use(last_used: Seq<(Language, u64)>, lang: Language, other: Language)
    ensures
        ({
            let rest = last_used.filter(|e: (Language, u64)| e.0 != lang);
            used_at(rest, other) == if other == lang {
                None
            } else {
                used_at(last_used, other)
            }
        }),
    decreases last_used.len(),
{
    reveal(Seq::filter);
    let p = |e: (Language, u64)| e.0 != lang;
    if last_used.len() > 0 {
        let head = seq![last_used[0]];
        let tail = last_used.drop_first();
        forgotten_use(tail, lang, other);
        Seq::filter_distributes_over_add(head, tail, p);
        assert(last_used =~= head + tail);
        assert(head.drop_last().filter(p) =~= Seq::empty());
        assert(head.last() == last_used[0]);
        if p(last_used[0]) {
            assert(head.filter(p) =~= head);
            assert((head + tail.filter(p)).drop_first() =~= tail.filter(p));
        } else {
            assert(head.filter(p) =~= Seq::empty());
            assert(last_used.filter(p) =~= tail.filter(p));
        }
    }
}

/// After a language was noted as used, that is the time of its last use, and those of the other
/// languages are as before.
pub proof fn touched_language_is_known(last_used: Seq<(Language, u64)>, lang: Language, now: u64, other: Language)
    ensures
        ({
            let after = seq![(lang, now)] + last_used.filter(|e: (Language, u64)| e.0 != lang);
            used_at(after, other) == if other == lang {
                Some(now)
            } else {
                used_at(last_used, other)
            }
        }),
{
    forgotten_use(last_used, lang, other);
    let rest = last_used.filter(|e: (Language, u64)| e.0 != lang);
    assert((seq![(lang, now)] + rest).drop_first() =~= rest);
}

// ── Probing ─────────────────────────────────────────────────────────────────

/// How often a server is asked before it is taken to be ready.
pub const MAX_PROBES: u8 = 5;

/// Milliseconds that a server has to answer a probe.
pub const PROBE_TIMEOUT_MS: u64 = 2_000;

/// Milliseconds between two probes.
pub const PROBE_DELAY_MS: u64 = 500;

/// Decides whether to probe a server again after probe number `attempt`, counted from 0: it was not
/// asked often enough, and it gave no answer or `null`.
pub fn probe_again(attempt: u8, answer: Option<&JsonValue>) -> (r: bool)
    requires
        attempt < MAX_PROBES,
    ensures
        r == (attempt + 1 < MAX_PROBES && match answer {
            Some(v) => v@ == Json::Null,
            None => true,
        }),
{
    let settled = match answer {
        Some(v) => !v.is_null(),
        None => false,
    };
    !settled && attempt + 1 < MAX_PROBES
}

/// The sessions whose roots are not among the dead stay, in order, and no others.
pub proof fn live_sessions_stay(s: Seq<Slot>, dead: Seq<Seq<char>>)
    ensures
        live_slots(s, dead) == s.filter(|x: Slot| !is_dead(x.root, dead)),
    decreases s.len(),
{
    reveal(Seq::filter);
    let p = |x: Slot| !is_dead(x.root, dead);
    if s.len() > 0 {
        live_sessions_stay(s.drop_last(), dead);
    } else {
        assert(live_slots(s, dead) =~= Seq::empty());
    }
}

/// The roots of a language are all roots with that language, in order.
pub proof fn roots_are_those_of_the_language(roots: Seq<(Language, Seq<char>)>, lang: Language)
    ensures
        roots_of(roots, lang) == roots.filter(|r: (Language, Seq<char>)| r.0 == lang).map_values(|r: (Language, Seq<char>)| r.1),
    decreases roots.len(),
{
    reveal(Seq::filter);
    let p = |r: (Language, Seq<char>)| r.0 == lang;
    let make = |r: (Language, Seq<char>)| r.1;
    if roots.len() > 0 {
        roots_are_those_of_the_language(roots.drop_last(), lang);
        let rest = roots.drop_last().filter(p);
        if p(roots.last()) {
            assert(rest.push(roots.last()).map_values(make) =~= rest.map_values(make).push(make(roots.last())));
        }
    } else {
        assert(roots.filter(p).map_values(make) =~= Seq::empty());
    }
}

/// The first look at a language counts.
pub proof fn first_look_counts(looks: Seq<(Language, Option<Servers>)>, lang: Language, i: int)
    requires
        0 <= i <= looks.len(),
        forall|k: int| 0 <= k < i ==> !((#[trigger] looks[k]).0 == lang),
        i < looks.len() ==> (looks[i].0 == lang),
    ensures
        look_at(looks, lang) == if i < looks.len() {
            Some(looks[i].1)
        } else {
            None
        },
    decreases i,
{
    if i > 0 {
        let rest = looks.drop_first();
        assert(!(looks[0].0 == lang));
        assert forall|k: int| 0 <= k < i - 1 implies !((#[trigger] rest[k]).0 == lang) by {
            assert(rest[k] == looks[k + 1]);
        }
        if i < looks.len() {
            assert(rest[i - 1] == looks[i]);
        }
        first_look_counts(rest, lang, i - 1);
    }
}

/// The first time that is noted for a language counts.
pub proof fn first_use_counts(last_used: Seq<(Language, u64)>, lang: Language, i: int)
    requires
        0 <= i <= last_used.len(),
        forall|k: int| 0 <= k < i ==> !((#[trigger] last_used[k]).0 == lang),
        i < last_used.len() ==> (last_used[i].0 == lang),
    ensures
        used_at(last_used, lang) == if i < last_used.len() {
            Some(last_used[i].1)
        } else {
            None
        },
    decreases i,
{
    if i > 0 {
        let rest = last_used.drop_first();
        assert(!(last_used[0].0 == lang));
        assert forall|k: int| 0 <= k < i - 1 implies !((#[trigger] rest[k]).0 == lang) by {
            assert(rest[k] == last_used[k + 1]);
        }
        if i < last_used.len() {
            assert(rest[i - 1] == last_used[i]);
        }
        first_use_counts(rest, lang, i - 1);
    }
}

/// The first root of a language is found where it stands.
pub proof fn first_root_is_found(roots: Seq<(Language, Seq<char>)>, lang: Language, i: int)
    requires
        0 <= i <= roots.len(),
        forall|k: int| 0 <= k < i ==> !((#[trigger] roots[k]).0 == lang),
        i < roots.len() ==> (roots[i].0 == lang),
    ensures
        first_root(roots, lang) == if i < roots.len() {
            i
        } else {
            roots.len() as int
        },
    decreases i,
{
    if i > 0 {
        let rest = roots.drop_first();
        assert(!(roots[0].0 == lang));
        assert forall|k: int| 0 <= k < i - 1 implies !((#[trigger] rest[k]).0 == lang) by {
            assert(rest[k] == roots[k + 1]);
        }
        if i < roots.len() {
            assert(rest[i - 1] == roots[i]);
        }
        first_root_is_found(rest, lang, i - 1);
    }
}

/// The first source file of a language is taken.
pub proof fn first_source_warms_up(files: Seq<Seq<char>>, lang: Language, i: int)
    requires
        0 <= i <= files.len(),
        forall|k: int| 0 <= k < i ==> !(is_source(#[trigger] files[k], lang)),
        i < files.len() ==> (is_source(files[i], lang)),
    ensures
        first_source(files, lang) == if i < files.len() {
            Some(files[i])
        } else {
            None
        },
    decreases i,
{
    if i > 0 {
        let rest = files.drop_first();
        assert(!(is_source(files[0], lang)));
        assert forall|k: int| 0 <= k < i - 1 implies !(is_source(#[trigger] rest[k], lang)) by {
            assert(rest[k] == files[k + 1]);
        }
        if i < files.len() {
            assert(rest[i - 1] == files[i]);
        }
        first_source_warms_up(rest, lang, i - 1);
    }
}

/// The directories are looked through in order, up to the first that has a source file of the language.
pub proof fn first_directory_with_sources_warms_up(dirs: Seq<Seq<Seq<char>>>, lang: Language, i: int)
    requires
        0 <= i <= dirs.len(),
        forall|k: int| 0 <= k < i ==> !(first_source(#[trigger] dirs[k], lang) is Some),
        i < dirs.len() ==> (first_source(dirs[i], lang) is Some),
    ensures
        warmup_file(dirs, lang) == if i < dirs.len() {
            first_source(dirs[i], lang)
        } else {
            None
        },
    decreases i,
{
    if i > 0 {
        let rest = dirs.drop_first();
        assert(!(first_source(dirs[0], lang) is Some));
        assert forall|k: int| 0 <= k < i - 1 implies !(first_source(#[trigger] rest[k], lang) is Some) by {
            assert(rest[k] == dirs[k + 1]);
        }
        if i < dirs.len() {
            assert(rest[i - 1] == dirs[i]);
        }
        first_directory_with_sources_warms_up(rest, lang, i - 1);
    }
}

/// The sessions of a language have been up since the earliest of them was started.
pub proof fn earliest_session_counts(s: Seq<Slot>)
    requires
        s.len() > 0,
    ensures
        forall|i: int| 0 <= i < s.len() ==> earliest_start(s) <= (#[trigger] s[i]).started_at,
        exists|i: int| 0 <= i < s.len() && (#[trigger] s[i]).started_at == earliest_start(s),
    decreases s.len(),
{
    if s.len() == 1 {
        assert(s[0].started_at == earliest_start(s));
    } else {
        let init = s.drop_last();
        earliest_session_counts(init);
        assert(s[s.len() - 1] == s.last());
        let k = choose|i: int| 0 <= i < init.len() && (#[trigger] init[i]).started_at == earliest_start(init);
        assert(s[k] == init[k]);
        assert forall|i: int| 0 <= i < s.len() implies earliest_start(s) <= (#[trigger] s[i]).started_at by {
            if i < init.len() {
                assert(init[i] == s[i]);
            }
        }
        assert(s[k].started_at == earliest_start(s) || s.last().started_at == earliest_start(s));
    }
}

/// The open files of all sessions are counted.
pub proof fn all_open_files_count(s: Seq<Slot>, x: Slot, t: Seq<Slot>)
    ensures
        files_open(s + seq![x] + t) == files_open(s) + x.open_files + files_open(t),
        files_open(Seq::empty()) == 0,
    decreases t.len(),
{
    let all = s + seq![x] + t;
    if t.len() == 0 {
        assert(all.drop_last() =~= s);
        assert(all.last() == x);
    } else {
        assert(all.drop_last() =~= s + seq![x] + t.drop_last());
        assert(all.last() == t.last());
        all_open_files_count(s, x, t.drop_last());
    }
}

/// Of the first sessions, the most recently used is one that none was used after.
pub proof fn most_recent_was_used_last(s: Seq<Slot>, n: int)
    requires
        0 < n <= s.len(),
    ensures
        0 <= most_recent(s, n) < n,
        forall|i: int| 0 <= i < n ==> (#[trigger] s[i]).last_used_at <= s[most_recent(s, n)].last_used_at,
        forall|i: int| most_recent(s, n) < i < n ==> (#[trigger] s[i]).last_used_at < s[most_recent(s, n)].last_used_at,
    decreases n,
{
    if n > 1 {
        most_recent_was_used_last(s, n - 1);
    }
}

/// A session that was started is there, and those of other roots stay as they are.
pub proof fn started_session_is_there(s: Seq<Slot>, slot: Slot)
    ensures
        with_session(s, slot).contains(slot),
        forall|k: int|
            0 <= k < s.len() && !same_path((#[trigger] s[k]).root, slot.root) ==> with_session(s, slot)[k] == s[k],
        forall|k: int| 0 <= k < s.len() ==> with_session(s, slot)[k] == #[trigger] s[k] || with_session(s, slot)[k] == slot,
        (forall|k: int| 0 <= k < s.len() ==> !same_path((#[trigger] s[k]).root, slot.root)) ==> with_session(s, slot)
            == s.push(slot),
        (exists|k: int| 0 <= k < s.len() && same_path((#[trigger] s[k]).root, slot.root)) ==> with_session(s, slot).len()
            == s.len(),
{
    root_index_is_first(s, slot.root);
    let i = root_index(s, slot.root);
    if i < s.len() {
        assert(with_session(s, slot)[i] == slot);
    } else {
        assert(with_session(s, slot).last() == slot);
    }
}

/// A session that is used has the time of its use, and nothing else of it or of the others changes.
pub proof fn used_session_has_its_time(s: Seq<Slot>, root: Seq<char>, now: u64, i: int)
    requires
        roots_distinct(s),
        0 <= i < s.len(),
    ensures
        touched(s, root, now).len() == s.len(),
        same_path(s[i].root, root) ==> touched(s, root, now)[i] == (Slot { last_used_at: now, ..s[i] }),
        !same_path(s[i].root, root) ==> touched(s, root, now)[i] == s[i],
{
    root_index_is_first(s, root);
    let k = root_index(s, root);
    if k < s.len() && same_path(s[i].root, root) && k != i {
        assert(same_path(s[k].root, s[i].root));
        assert(same_path(s[i].root, s[k].root));
    }
}

/// Room is made only where it is needed, and then by one session, unless all have priority.
pub proof fn room_is_made_where_needed(s: Seq<Slot>, priority: Seq<Seq<char>>, max: int)
    ensures
        s.len() < max ==> after_eviction(s, priority, max) == s,
        s.len() >= max && (exists|k: int| 0 <= k < s.len() && !is_priority((#[trigger] s[k]).root, priority))
            ==> exists|i: int|
            0 <= i < s.len() && after_eviction(s, priority, max) == s.remove(i) && !is_priority(
                (#[trigger] s[i]).root,
                priority,
            ) && forall|k: int|
                0 <= k < s.len() && !is_priority((#[trigger] s[k]).root, priority) ==> s[i].last_used_at
                    <= s[k].last_used_at,
        (forall|k: int| 0 <= k < s.len() ==> is_priority((#[trigger] s[k]).root, priority)) ==> after_eviction(
            s,
            priority,
            max,
        ) == s,
{
    victim_is_least_recent(s, priority, s.len() as int);
}

/// The wait before a restart begins with two seconds, doubles with each crash up to the fifth, and is a minute
/// from there on.
pub proof fn backoff_doubles(n: u32)
    ensures
        n <= 1 ==> backoff_secs(n) == 2,
        1 < n <= 5 ==> backoff_secs(n) == 2 * backoff_secs((n - 1) as u32),
        n > 5 ==> backoff_secs(n) == 60,
{
}

/// The languages of the roots come each once, in the order of their first roots.
pub proof fn languages_come_with_their_first_root(roots: Seq<(Language, Seq<char>)>)
    ensures
        forall|l: Language| #[trigger] languages_in_order(roots).contains(l) <==> has_language(roots, l),
        languages_in_order(roots).no_duplicates(),
    decreases roots.len(),
{
    if roots.len() > 0 {
        let init = roots.drop_last();
        let rest = languages_in_order(init);
        let all = languages_in_order(roots);
        languages_come_with_their_first_root(init);
        assert(roots[roots.len() - 1] == roots.last());
        assert forall|l: Language| #[trigger] all.contains(l) <==> has_language(roots, l) by {
            assert(rest.contains(l) <==> has_language(init, l));
            if has_language(init, l) {
                let i = choose|i: int| 0 <= i < init.len() && (#[trigger] init[i]).0 == l;
                assert(roots[i] == init[i]);
                let k = choose|k: int| 0 <= k < rest.len() && rest[k] == l;
                assert(all[k] == l);
            }
            if has_language(roots, l) && l != roots.last().0 {
                let i = choose|i: int| 0 <= i < roots.len() && (#[trigger] roots[i]).0 == l;
                assert(init[i] == roots[i]);
            }
            if l == roots.last().0 && !rest.contains(l) {
                assert(all.last() == l);
            }
            if all.contains(l) && !rest.contains(l) {
                let k = choose|k: int| 0 <= k < all.len() && all[k] == l;
                if k < rest.len() {
                    assert(rest[k] == l);
                }
            }
        }
    }
}

/// Where the files and folders of a language's server are told, they are those of its sessions.
pub proof fn status_tells_of_the_sessions(lang: Language, s: Servers, total_folders: usize, now: u64)
    ensures
        status_of(lang, s, total_folders, now).language == lang.label(),
        status_of(lang, s, total_folders, now).total_folders == total_folders,
        s.ready() ==> status_of(lang, s, total_folders, now).status == "ready"@,
        !s.ready() && s.failed is Some ==> status_of(lang, s, total_folders, now).status == "failed"@,
        !s.ready() && s.failed is None ==> status_of(lang, s, total_folders, now).status == "pending"@,
        s.strategy matches Some(Strategy::MultiRoot(slot)) ==> {
            let r = status_of(lang, s, total_folders, now);
            r.server_name == slot.server_name && r.open_files == slot.open_files && r.attached_folders
                == slot.attached_folders && (now >= slot.started_at ==> r.uptime_secs == (now - slot.started_at) / 1000)
        },
{
}

/// A server that has been up long enough is forgiven its crashes, and one that runs is left as it is.
pub proof fn stable_server_is_forgiven(s: Servers, uptime_secs: u64, dead: Seq<Seq<char>>)
    requires
        s.failed is None,
        s.strategy is Some,
        s.strategy->0 is MultiRoot,
    ensures
        after_check(s, true, uptime_secs, dead).strategy == s.strategy,
        after_check(s, true, uptime_secs, dead).failed is None,
        after_check(s, true, uptime_secs, dead).crash_count == if uptime_secs >= STABILITY_RESET_SECS {
            0
        } else {
            s.crash_count
        },
{
}

} // verus!

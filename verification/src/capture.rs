//! Choosing what to capture and how.
use vstd::prelude::*;
use vstd::string::*;
use crate::cli::{number32, number_size, parse_u32, parse_usize, CaptureSourceOptions};
use crate::text::{
    decimal, decimal_text, join, join_texts, lower, lower_text, same_text, texts, trim, trim_text,
};

verus! {

// ---------------------------------------------------------------------------
// Settings
// ---------------------------------------------------------------------------
/// What a live source captures, and how often.
#[derive(Clone, Copy, Debug, PartialEq, Eq, Structural)]
pub struct LiveCaptureSettings {
    pub source: CaptureSourceOptions,
    pub fps: u32,
}

/// The number that a setting writes, or the default where there is none or it is
/// no number; at least one.
pub open spec fn positive_setting(value: Option<&str>, default: u32) -> u32 {
    let number = match value {
        Some(text) => match number32(text@) {
            Some(n) => n,
            None => default,
        },
        None => default,
    };
    if number < 1 {
        1
    } else {
        number
    }
}

/// The number that a setting writes, or the default; at least one.
fn read_positive(value: Option<&str>, default: u32) -> (number: u32)
    ensures
        number == positive_setting(value, default),
{
    let number: u32 = match value {
        Some(text) => match parse_u32(text) {
            Some(n) => n,
            None => default,
        },
        None => default,
    };
    if number < 1 {
        1
    } else {
        number
    }
}

/// What a live source captures, by the settings for frames per second, monitor
/// and timeout. A setting that is no number counts as absent.
pub fn live_capture_settings(fps: Option<&str>, monitor: Option<&str>, timeout_ms: Option<&str>) -> (
    settings: LiveCaptureSettings)
    ensures
        settings.fps == positive_setting(fps, 30),
        settings.source.timeout_ms == positive_setting(timeout_ms, 33),
        settings.source.monitor_index == match monitor {
            Some(text) => number_size(text@),
            None => None,
        },
{
    let monitor_index = match monitor {
        Some(text) => parse_usize(text),
        None => None,
    };
    LiveCaptureSettings {
        source: CaptureSourceOptions { monitor_index, timeout_ms: read_positive(timeout_ms, 33) },
        fps: read_positive(fps, 30),
    }
}

/// The interfaces that can capture the screen.
#[derive(Clone, Copy, Debug, PartialEq, Eq, Structural)]
pub enum CaptureBackend {
    Auto,
    Dxgi,
    Wgc,
}

/// The setting that names no known interface.
#[derive(Debug, PartialEq, Eq)]
pub struct UnsupportedCaptureBackend {
    pub value: String,
}

/// The interface that a setting names.
pub open spec fn backend_of(value: Seq<char>) -> Option<CaptureBackend> {
    let v = lower(trim(value));
    if v == ""@ || v == "auto"@ {
        Some(CaptureBackend::Auto)
    } else if v == "dxgi"@ || v == "duplication"@ {
        Some(CaptureBackend::Dxgi)
    } else if v == "wgc"@ || v == "graphics-capture"@ || v == "windows-graphics-capture"@ {
        Some(CaptureBackend::Wgc)
    } else {
        None
    }
}

/// The interface that a setting names.
pub fn parse_capture_backend(value: &str) -> (backend: Result<
    CaptureBackend,
    UnsupportedCaptureBackend,
>)
    ensures
        match backend {
            Ok(b) => backend_of(value@) == Some(b),
            Err(e) => backend_of(value@) is None && e.value@ == lower(trim(value@)),
        },
{
    let trimmed = trim_text(value);
    let lowered = lower_text(trimmed.as_str());
    let v = lowered.as_str();
    if same_text(v, "") || same_text(v, "auto") {
        Ok(CaptureBackend::Auto)
    } else if same_text(v, "dxgi") || same_text(v, "duplication") {
        Ok(CaptureBackend::Dxgi)
    } else if same_text(v, "wgc") || same_text(v, "graphics-capture") || same_text(
        v,
        "windows-graphics-capture",
    ) {
        Ok(CaptureBackend::Wgc)
    } else {
        Err(UnsupportedCaptureBackend { value: lowered })
    }
}

/// The interface to try first.
pub fn first_capture_backend(backend: CaptureBackend) -> (first: CaptureBackend)
    ensures
        first == if backend is Wgc {
            CaptureBackend::Wgc
        } else {
            CaptureBackend::Dxgi
        },
{
    match backend {
        CaptureBackend::Wgc => CaptureBackend::Wgc,
        _ => CaptureBackend::Dxgi,
    }
}

/// The interface to try after the given number of attempts, the last of which has
/// just succeeded or failed: only the automatic choice has a second one, for when
/// the first fails. Where there is none, the outcome of the last attempt is the
/// result.
pub fn after_capture_attempt(backend: CaptureBackend, tried: usize, succeeded: bool) -> (next:
    Option<CaptureBackend>)
    ensures
        next == if !succeeded && tried == 1 && backend is Auto {
            Some(CaptureBackend::Wgc)
        } else {
            None
        },
{
    match backend {
        CaptureBackend::Auto => if !succeeded && tried == 1 {
            Some(CaptureBackend::Wgc)
        } else {
            None
        },
        _ => None,
    }
}

/// Milliseconds to wait for one picture: at least one from desktop duplication,
/// at least a second from the graphics capture interface.
pub fn effective_timeout_ms(backend: CaptureBackend, timeout_ms: u32) -> (ms: u32)
    ensures
        ms == if backend is Wgc {
            if timeout_ms < 1000 {
                1000
            } else {
                timeout_ms
            }
        } else {
            if timeout_ms < 1 {
                1
            } else {
                timeout_ms
            }
        },
{
    match backend {
        CaptureBackend::Wgc => if timeout_ms < 1000 {
            1000
        } else {
            timeout_ms
        },
        _ => if timeout_ms < 1 {
            1
        } else {
            timeout_ms
        },
    }
}

// ---------------------------------------------------------------------------
// Monitors
// ---------------------------------------------------------------------------
/// There is no monitor to capture.
#[derive(Clone, Copy, Debug, PartialEq, Eq, Structural)]
pub struct NoActiveMonitors;

/// `list` with those of `more` appended, in order, that do not stand in it yet.
pub open spec fn with_new(list: Seq<u64>, more: Seq<u64>) -> Seq<u64>
    decreases more.len(),
{
    if more.len() == 0 {
        list
    } else {
        let before = with_new(list, more.drop_last());
        if before.contains(more.last()) {
            before
        } else {
            before.push(more.last())
        }
    }
}

/// The monitors to try, in order: the primary one, then the other active ones.
pub open spec fn candidates(primary: Option<u64>, active: Seq<u64>) -> Seq<u64> {
    with_new(
        match primary {
            Some(monitor) => seq![monitor],
            None => Seq::empty(),
        },
        active,
    )
}

/// Whether a monitor stands in a list.
fn holds(list: &Vec<u64>, monitor: u64) -> (found: bool)
    ensures
        found == list@.contains(monitor),
{
    let mut i: usize = 0;
    while i < list.len()
        invariant
            i <= list@.len(),
            forall|j: int| 0 <= j < i ==> list@[j] != monitor,
        decreases list@.len() - i,
    {
        if list[i] == monitor {
            return true;
        }
        i += 1;
    }
    false
}

/// The monitors to try, in order, where none was chosen. `primary` and `active`
/// are the handles of the primary monitor and of all active ones.
pub fn candidate_monitors(primary: Option<u64>, active: &Vec<u64>) -> (monitors: Result<
    Vec<u64>,
    NoActiveMonitors,
>)
    ensures
        match monitors {
            Ok(list) => list@ == candidates(primary, active@) && list@.len() > 0,
            Err(_) => candidates(primary, active@).len() == 0,
        },
{
    let mut monitors: Vec<u64> = Vec::new();
    if let Some(monitor) = primary {
        monitors.push(monitor);
    }
    let ghost start = monitors@;
    proof {
        match primary {
            Some(monitor) => {
                assert(start =~= seq![monitor]);
            },
            None => {
                assert(start =~= Seq::empty());
            },
        }
    }
    let mut i: usize = 0;
    assert(monitors@ == with_new(start, active@.take(0)));
    while i < active.len()
        invariant
            i <= active@.len(),
            monitors@ == with_new(start, active@.take(i as int)),
        decreases active@.len() - i,
    {
        assert(active@.take(i + 1).drop_last() =~= active@.take(i as int));
        if !holds(&monitors, active[i]) {
            monitors.push(active[i]);
        }
        i += 1;
    }
    assert(active@.take(i as int) =~= active@);
    if monitors.len() == 0 {
        Err(NoActiveMonitors)
    } else {
        Ok(monitors)
    }
}

/// No element stands in the list twice.
pub open spec fn all_different(list: Seq<u64>) -> bool {
    forall|i: int, j: int| 0 <= i < j < list.len() ==> list[i] != list[j]
}

proof fn lemma_with_new(list: Seq<u64>, more: Seq<u64>)
    requires
        all_different(list),
    ensures
        all_different(with_new(list, more)),
        with_new(list, more).len() >= list.len(),
        with_new(list, more).take(list.len() as int) == list,
        forall|m: u64| list.contains(m) || more.contains(m) <==> with_new(list, more).contains(m),
    decreases more.len(),
{
    let all = with_new(list, more);
    if more.len() == 0 {
        assert(list.take(list.len() as int) =~= list);
    } else {
        lemma_with_new(list, more.drop_last());
        let before = with_new(list, more.drop_last());
        let last = more.last();
        assert(all.take(list.len() as int) =~= before.take(list.len() as int));
        assert forall|m: u64| list.contains(m) || more.contains(m) <==> all.contains(m) by {
            if more.contains(m) {
                let k = choose|k: int| 0 <= k < more.len() && more[k] == m;
                if k < more.len() - 1 {
                    assert(more.drop_last()[k] == m);
                    assert(more.drop_last().contains(m));
                }
            }
            if more.drop_last().contains(m) {
                let k = choose|k: int| 0 <= k < more.len() - 1 && more.drop_last()[k] == m;
                assert(more[k] == m);
            }
            assert(more[more.len() - 1] == last);
            if before.contains(m) && !before.contains(last) {
                let k = choose|k: int| 0 <= k < before.len() && before[k] == m;
                assert(all[k] == m);
            }
            if all.contains(m) && !before.contains(last) {
                let k = choose|k: int| 0 <= k < all.len() && all[k] == m;
                if k < before.len() {
                    assert(before[k] == m);
                }
            }
            if !before.contains(last) {
                assert(all[all.len() - 1] == last);
            }
        }
    }
}

/// The primary monitor is tried first, every active monitor is tried, no other
/// monitor is, and none is tried twice.
pub proof fn every_monitor_is_tried_once(primary: Option<u64>, active: Seq<u64>)
    ensures
        all_different(candidates(primary, active)),
        primary matches Some(m) ==> candidates(primary, active).len() > 0 && candidates(
            primary,
            active,
        )[0] == m,
        forall|m: u64|
            candidates(primary, active).contains(m) <==> active.contains(m) || primary == Some(m),
{
    let start: Seq<u64> = match primary {
        Some(monitor) => seq![monitor],
        None => Seq::empty(),
    };
    lemma_with_new(start, active);
    assert forall|m: u64| start.contains(m) <==> primary == Some(m) by {
        if primary == Some(m) {
            assert(start[0] == m);
        }
    }
    match primary {
        Some(m) => {
            assert(candidates(primary, active).take(1)[0] == m);
        },
        None => {},
    }
}

/// Why a monitor could not be captured: its number, its device, its adapter where
/// that is told, and the error.
pub open spec fn failure_text(
    index: usize,
    device: Seq<char>,
    adapter: Option<&str>,
    error: Seq<char>,
) -> Seq<char> {
    "#"@ + decimal(index as nat) + " "@ + device + (match adapter {
        Some(name) => " "@ + name@,
        None => Seq::empty(),
    }) + ": "@ + error
}

/// Why a monitor could not be captured.
pub fn monitor_failure(index: usize, device: &str, adapter: Option<&str>, error: &str) -> (text:
    String)
    ensures
        text@ == failure_text(index, device@, adapter, error@),
{
    let mut text = "#".to_owned();
    let number = decimal_text(index as u64);
    text.append(number.as_str());
    text.append(" ");
    text.append(device);
    if let Some(name) = adapter {
        text.append(" ");
        text.append(name);
    }
    text.append(": ");
    text.append(error);
    assert(text@ =~= failure_text(index, device@, adapter, error@));
    text
}

/// The search for a monitor that can be captured: one after the other is tried
/// until one is accepted.
#[derive(Debug, PartialEq, Eq)]
pub struct MonitorProbe {
    pub candidates: Vec<u64>,
    /// Why each of the monitors tried so far was rejected.
    pub failures: Vec<String>,
}

impl MonitorProbe {
    /// No more monitors were rejected than there are.
    pub open spec fn wf(&self) -> bool {
        self.failures@.len() <= self.candidates@.len()
    }

    /// A search among the given monitors.
    pub fn new(candidates: Vec<u64>) -> (probe: Self)
        ensures
            probe.wf(),
            probe.candidates@ == candidates@,
            probe.failures@.len() == 0,
    {
        MonitorProbe { candidates, failures: Vec::new() }
    }

    /// The monitor to try now: the first that has not been rejected; none when all
    /// have been.
    pub fn current(&self) -> (monitor: Option<u64>)
        requires
            self.wf(),
        ensures
            monitor == if self.failures@.len() < self.candidates@.len() {
                Some(self.candidates@[self.failures@.len() as int])
            } else {
                None
            },
    {
        if self.failures.len() < self.candidates.len() {
            Some(self.candidates[self.failures.len()])
        } else {
            None
        }
    }

    /// Goes on to the next monitor, since the current one was rejected.
    pub fn reject(&mut self, failure: String)
        requires
            old(self).wf(),
            old(self).failures@.len() < old(self).candidates@.len(),
        ensures
            final(self).wf(),
            final(self).candidates@ == old(self).candidates@,
            final(self).failures@ == old(self).failures@.push(failure),
    {
        self.failures.push(failure);
    }

    /// All failures, for a search that has failed.
    pub fn all_failures(&self) -> (text: String)
        ensures
            text@ == join(texts(self.failures@), "; "@),
    {
        join_texts(&self.failures, "; ")
    }

    /// The last failure, or that there was nothing to try.
    pub fn last_failure(&self) -> (text: String)
        ensures
            text@ == if self.failures@.len() > 0 {
                self.failures@.last()@
            } else {
                "no active monitors found"@
            },
    {
        let count: usize = self.failures.len();
        if count > 0 {
            self.failures[count - 1].as_str().to_owned()
        } else {
            "no active monitors found".to_owned()
        }
    }
}

// ---------------------------------------------------------------------------
// Waiting for a picture
// ---------------------------------------------------------------------------
/// How often a picture is asked for before giving up.
pub const ACQUIRE_ATTEMPTS: u32 = 30;

/// Milliseconds of pause after an attempt that failed.
pub const ACQUIRE_PAUSE_MS: u64 = 16;

/// What to do when an attempt has not given a picture.
#[derive(Clone, Copy, Debug, PartialEq, Eq, Structural)]
pub enum AcquireStep {
    /// Pause, and then ask again.
    RetryAfter { ms: u64 },
    /// Pause, and then give up.
    GiveUpAfter { ms: u64 },
}

/// What to do after `failed` attempts, the last of which has just failed: each is
/// followed by a pause, the last one too.
pub fn after_failed_acquire(failed: u32) -> (step: AcquireStep)
    ensures
        step == if failed < ACQUIRE_ATTEMPTS {
            AcquireStep::RetryAfter { ms: ACQUIRE_PAUSE_MS }
        } else {
            AcquireStep::GiveUpAfter { ms: ACQUIRE_PAUSE_MS }
        },
{
    if failed < ACQUIRE_ATTEMPTS {
        AcquireStep::RetryAfter { ms: ACQUIRE_PAUSE_MS }
    } else {
        AcquireStep::GiveUpAfter { ms: ACQUIRE_PAUSE_MS }
    }
}

// ---------------------------------------------------------------------------
// What settings and failures lead to
// ---------------------------------------------------------------------------
/// The names of the interfaces, in any letter case and with white space around them; no
/// name at all is the automatic choice.
pub proof fn interfaces_have_their_names(
    value: &str,
    backend: Result<CaptureBackend, UnsupportedCaptureBackend>,
)
    requires
        call_ensures(parse_capture_backend, (value,), backend),
    ensures
        ({
            let v = lower(trim(value@));
            &&& v == "auto"@ || v.len() == 0 ==> backend == Ok::<_, UnsupportedCaptureBackend>(
                CaptureBackend::Auto,
            )
            &&& v == "dxgi"@ || v == "duplication"@ ==> backend == Ok::<_, UnsupportedCaptureBackend>(
                CaptureBackend::Dxgi,
            )
            &&& v == "wgc"@ || v == "graphics-capture"@ || v == "windows-graphics-capture"@
                ==> backend == Ok::<_, UnsupportedCaptureBackend>(CaptureBackend::Wgc)
            &&& v.len() > 0 && v != "auto"@ && v != "dxgi"@ && v != "duplication"@ && v != "wgc"@
                && v != "graphics-capture"@ && v != "windows-graphics-capture"@ ==> backend is Err
        }),
{
    reveal_strlit("");
    reveal_strlit("auto");
    reveal_strlit("dxgi");
    reveal_strlit("duplication");
    reveal_strlit("wgc");
    reveal_strlit("graphics-capture");
    reveal_strlit("windows-graphics-capture");
    let v = lower(trim(value@));
    if v.len() == 0 {
        assert(v =~= ""@);
    }
    assert("auto"@[0] == 'a' && "dxgi"@[0] == 'd' && "dxgi"@.len() == 4 && "auto"@.len() == 4);
    assert("duplication"@.len() == 11 && "wgc"@.len() == 3 && "graphics-capture"@.len() == 16
        && "windows-graphics-capture"@.len() == 24);
}

/// The automatic choice tries desktop duplication first and the graphics capture
/// interface if that fails; a chosen interface is the only one tried.
pub proof fn interfaces_are_tried_in_order(
    backend: CaptureBackend,
    first: CaptureBackend,
    tried: usize,
    succeeded: bool,
    next: Option<CaptureBackend>,
)
    requires
        call_ensures(first_capture_backend, (backend,), first),
        call_ensures(after_capture_attempt, (backend, tried, succeeded), next),
    ensures
        backend is Auto ==> first is Dxgi,
        backend is Dxgi ==> first is Dxgi && next is None,
        backend is Wgc ==> first is Wgc && next is None,
        succeeded ==> next is None,
        backend is Auto && !succeeded && tried == 1 ==> next == Some(CaptureBackend::Wgc),
        backend is Auto && tried != 1 ==> next is None,
{
}

/// The graphics capture interface is given a second at least, desktop duplication a
/// millisecond; longer times are kept.
pub proof fn waiting_times_have_a_floor(backend: CaptureBackend, timeout_ms: u32, ms: u32)
    requires
        call_ensures(effective_timeout_ms, (backend, timeout_ms), ms),
    ensures
        ms >= timeout_ms,
        backend is Wgc ==> ms >= 1000 && (ms > timeout_ms ==> ms == 1000),
        !(backend is Wgc) ==> ms >= 1 && (ms > timeout_ms ==> ms == 1),
{
}

/// A picture is asked for thirty times, with a pause of sixteen milliseconds after each
/// failure.
pub proof fn pictures_are_asked_for_thirty_times(failed: u32, step: AcquireStep)
    requires
        call_ensures(after_failed_acquire, (failed,), step),
    ensures
        failed < 30 ==> step == (AcquireStep::RetryAfter { ms: 16 }),
        failed >= 30 ==> step == (AcquireStep::GiveUpAfter { ms: 16 }),
{
}

/// Where no monitor is chosen, the primary one is the first to be tried, the active ones
/// follow, and no monitor is tried twice; there is nothing to try only where there are no
/// monitors.
pub proof fn the_primary_monitor_comes_first(
    primary: Option<u64>,
    active: &Vec<u64>,
    monitors: Result<Vec<u64>, NoActiveMonitors>,
)
    requires
        call_ensures(candidate_monitors, (primary, active), monitors),
    ensures
        monitors is Err <==> primary is None && active@.len() == 0,
        monitors matches Ok(list) ==> {
            &&& primary matches Some(m) ==> list@[0] == m
            &&& primary is None ==> list@[0] == active@[0]
            &&& forall|i: int, j: int| 0 <= i < j < list@.len() ==> list@[i] != list@[j]
            &&& forall|m: u64| list@.contains(m) <==> active@.contains(m) || primary == Some(m)
        },
{
    every_monitor_is_tried_once(primary, active@);
    let list = candidates(primary, active@);
    if primary is None && active@.len() == 0 {
        assert(list =~= Seq::empty());
    }
    match primary {
        Some(m) => {
            assert(list.contains(m));
        },
        None => {
            if active@.len() > 0 {
                lemma_first_active(active@);
            }
        },
    }
}

proof fn lemma_first_active(active: Seq<u64>)
    requires
        active.len() > 0,
    ensures
        with_new(Seq::empty(), active).len() > 0,
        with_new(Seq::empty(), active)[0] == active[0],
    decreases active.len(),
{
    reveal_with_fuel(with_new, 2);
    if active.len() > 1 {
        lemma_first_active(active.drop_last());
    } else {
        assert(active.drop_last() =~= Seq::empty());
    }
}

/// Monitors are tried one after the other: the one after as many failures as there have
/// been so far.
pub proof fn rejected_monitors_are_passed_over(
    probe: &mut MonitorProbe,
    failure: String,
    later: &MonitorProbe,
    next: Option<u64>,
)
    requires
        old(probe).wf(),
        old(probe).failures@.len() < old(probe).candidates@.len(),
        call_ensures(MonitorProbe::reject, (probe, failure), ()),
        *later == *final(probe),
        call_ensures(MonitorProbe::current, (later,), next),
    ensures
        ({
            let n = old(probe).failures@.len() + 1;
            next == if n < old(probe).candidates@.len() {
                Some(old(probe).candidates@[n as int])
            } else {
                None
            }
        }),
        final(probe).failures@.last() == failure,
{
}

/// A live source captures thirty pictures a second and waits 33 milliseconds for each,
/// unless a setting writes another number; a number that is zero counts as one.
pub proof fn live_settings_have_defaults(
    fps: Option<&str>,
    monitor: Option<&str>,
    timeout_ms: Option<&str>,
    settings: LiveCaptureSettings,
)
    requires
        call_ensures(live_capture_settings, (fps, monitor, timeout_ms), settings),
    ensures
        fps is None ==> settings.fps == 30,
        fps matches Some(t) ==> match number32(t@) {
            Some(n) => settings.fps == n || n == 0 && settings.fps == 1,
            None => settings.fps == 30,
        },
        timeout_ms is None ==> settings.source.timeout_ms == 33,
        timeout_ms matches Some(t) ==> match number32(t@) {
            Some(n) => settings.source.timeout_ms == n || n == 0 && settings.source.timeout_ms == 1,
            None => settings.source.timeout_ms == 33,
        },
        settings.fps >= 1 && settings.source.timeout_ms >= 1,
        monitor is None ==> settings.source.monitor_index is None,
        monitor matches Some(t) ==> settings.source.monitor_index == number_size(t@),
{
}

/// Why a monitor was rejected is told with its number, its device, its adapter where
/// that is known, and the error.
pub proof fn rejections_are_told(
    index: usize,
    device: &str,
    adapter: Option<&str>,
    error: &str,
    text: String,
)
    requires
        call_ensures(monitor_failure, (index, device, adapter, error), text),
    ensures
        adapter is None ==> text@ == "#"@ + decimal(index as nat) + " "@ + device@ + ": "@ + error@,
        adapter is Some ==> text@ == "#"@ + decimal(index as nat) + " "@ + device@ + (" "@
            + adapter->0@) + ": "@ + error@,
{
    if adapter is None {
        assert("#"@ + decimal(index as nat) + " "@ + device@ + Seq::<char>::empty() + ": "@ + error@
            =~= "#"@ + decimal(index as nat) + " "@ + device@ + ": "@ + error@);
    }
}

/// A search that has failed tells its last failure, and all of them one after the other;
/// one that had nothing to try says so.
pub proof fn failed_searches_tell_why(probe: &MonitorProbe, last: String, all: String)
    requires
        call_ensures(MonitorProbe::last_failure, (probe,), last),
        call_ensures(MonitorProbe::all_failures, (probe,), all),
    ensures
        probe.failures@.len() == 0 ==> last@ == "no active monitors found"@,
        probe.failures@.len() > 0 ==> last@ == probe.failures@.last()@,
        probe.failures@.len() == 1 ==> all@ == probe.failures@[0]@,
        probe.failures@.len() == 2 ==> all@ == probe.failures@[0]@ + "; "@ + probe.failures@[1]@,
{
    let list = texts(probe.failures@);
    assert(list.len() == probe.failures@.len());
    if list.len() == 2 {
        assert(list.drop_last().len() == 1);
        assert(join(list.drop_last(), "; "@) == list[0]);
    }
}

/// Active monitors keep their order behind the primary one: without a primary monitor
/// they are tried as they are listed, and with one, those before and those after it in
/// the list follow it.
pub proof fn active_monitors_keep_their_order(
    primary: Option<u64>,
    active: &Vec<u64>,
    monitors: Result<Vec<u64>, NoActiveMonitors>,
    p: int,
)
    requires
        call_ensures(candidate_monitors, (primary, active), monitors),
        forall|i: int, j: int| 0 <= i < j < active@.len() ==> active@[i] != active@[j],
    ensures
        primary is None && monitors is Ok ==> monitors->Ok_0@ == active@,
        primary matches Some(m) ==> (monitors is Ok && (!active@.contains(m)
            ==> monitors->Ok_0@ == seq![m] + active@) && (0 <= p < active@.len() && active@[p] == m
            ==> monitors->Ok_0@ == seq![m] + active@.take(p) + active@.skip(p + 1))),
{
    every_monitor_is_tried_once(primary, active@);
    match primary {
        None => {
            lemma_all_new(Seq::empty(), active@);
            assert(Seq::<u64>::empty() + active@ =~= active@);
        },
        Some(m) => {
            let start = seq![m];
            assert(candidates(primary, active@).contains(m));
            if !active@.contains(m) {
                lemma_all_new(start, active@);
            }
            if 0 <= p < active@.len() && active@[p] == m {
                lemma_all_new_but_one(start, active@, p);
            }
        },
    }
}

proof fn lemma_all_new(list: Seq<u64>, more: Seq<u64>)
    requires
        forall|i: int, j: int| 0 <= i < j < more.len() ==> more[i] != more[j],
        forall|i: int| 0 <= i < more.len() ==> !list.contains(#[trigger] more[i]),
    ensures
        with_new(list, more) == list + more,
    decreases more.len(),
{
    if more.len() == 0 {
        assert(list + more =~= list);
    } else {
        let shorter = more.drop_last();
        let last = more.last();
        assert forall|i: int| 0 <= i < shorter.len() implies !list.contains(#[trigger] shorter[i]) by {
            assert(shorter[i] == more[i]);
        }
        lemma_all_new(list, shorter);
        let before = list + shorter;
        if before.contains(last) {
            let k = choose|k: int| 0 <= k < before.len() && before[k] == last;
            assert(more[more.len() - 1] == last);
            if k < list.len() {
                assert(list[k] == last);
                assert(list.contains(more[more.len() - 1]));
            } else {
                assert(more[k - list.len()] == last);
            }
        }
        assert(before.push(last) =~= list + more);
    }
}

proof fn lemma_all_new_but_one(list: Seq<u64>, more: Seq<u64>, p: int)
    requires
        list.len() == 1,
        0 <= p < more.len(),
        more[p] == list[0],
        forall|i: int, j: int| 0 <= i < j < more.len() ==> more[i] != more[j],
    ensures
        with_new(list, more) == list + more.take(p) + more.skip(p + 1),
    decreases more.len(),
{
    let shorter = more.drop_last();
    let last = more.last();
    if p == more.len() - 1 {
        assert forall|i: int| 0 <= i < shorter.len() implies !list.contains(#[trigger] shorter[i]) by {
            assert(shorter[i] == more[i]);
            if list.contains(shorter[i]) {
                assert(more[i] != more[p]);
            }
        }
        lemma_all_new(list, shorter);
        assert((list + shorter)[0] == last);
        assert((list + shorter).contains(last));
        assert(list + more.take(p) + more.skip(p + 1) =~= list + shorter);
    } else {
        lemma_all_new_but_one(list, shorter, p);
        let before = list + shorter.take(p) + shorter.skip(p + 1);
        if before.contains(last) {
            let k = choose|k: int| 0 <= k < before.len() && before[k] == last;
            assert(more[more.len() - 1] == last);
            if k == 0 {
                assert(more[p] == last);
            } else if k <= p {
                assert(more[k - 1] == last);
            } else {
                assert(more[k] == last);
            }
        }
        assert(before.push(last) =~= list + more.take(p) + more.skip(p + 1));
    }
}

} // verus!

//! What a test suite for watchdog drivers builds on: which watchdog is under test, whether the
//! test may run, and sessions that always stop the watchdog again.
use vstd::prelude::*;

use crate::device::{DeviceOp, MagicClose, Watchdog, WatchdogView, MAGIC_BYTE};
use crate::enumerate::in_index_order;
use crate::error::{Error, ErrorView};
use crate::foreign::{quote, quoted};
use crate::info::{identity_str, identity_text, missing_options, WatchdogInfo};
use crate::ioctl::Request;
use crate::number::{decimal, decimal_text, hex, hex_text};
use crate::number::{decimals_denote_their_numbers, padded_hex_denotes_its_number};
use crate::number::{parsed_u32, weight};
use crate::sysfs::{attr_number, attr_text, outcome, text_outcome};
use crate::sysfs::{AttrRead, EntryView, WatchdogSysfs};
use crate::text::{same_text, trimmed};

verus! {

// ---------------------------------------------------------------------------
// May the test run?
// ---------------------------------------------------------------------------

/// Refuses every user but root.
pub fn require_root(uid: u32) -> (r: Result<(), Error>)
    ensures
        outcome(r) == (if uid == 0 {
            Ok(())
        } else {
            Err(ErrorView::NotRoot { uid })
        }),
{
    if uid != 0 {
        return Err(Error::NotRoot { uid });
    }
    Ok(())
}

/// Whether a test that reboots the machine may run.
#[derive(Debug)]
pub enum Consent {
    /// It may.
    Granted,
    /// It may not; this line says so.
    Skip { marker: String },
}

/// Consent to reboot the machine is given by the value `YES_REALLY` of the environment variable
/// `WATCHDOG_LAB_DANGEROUS`, and by nothing else. `value` is that variable, if it is set.
pub fn require_lab_consent(value: Option<&str>) -> (r: Consent)
    ensures
        r is Granted <==> (value matches Some(v) && v@ == "YES_REALLY"@),
        r matches Consent::Skip { marker } ==> marker@
            == "# SKIP: lab-CI test requires WATCHDOG_LAB_DANGEROUS=YES_REALLY (this test will REBOOT the machine on success)"@,
{
    if let Some(v) = value {
        if same_text(v, "YES_REALLY") {
            return Consent::Granted;
        }
    }
    Consent::Skip {
        marker:
            "# SKIP: lab-CI test requires WATCHDOG_LAB_DANGEROUS=YES_REALLY (this test will REBOOT the machine on success)".to_owned(),
    }
}

// ---------------------------------------------------------------------------
// Which watchdog is under test?
// ---------------------------------------------------------------------------

/// A watchdog of the system.
#[derive(Debug)]
pub struct Candidate {
    pub sys: WatchdogSysfs,
    /// What reading its attribute `identity` gave. Where no identity is wanted, there is no need
    /// to read it.
    pub identity: Option<AttrRead>,
}

/// The candidate's identity has been read, and is `want`.
pub open spec fn has_identity(c: Candidate, want: Seq<char>) -> bool {
    c.identity matches Some(read) && attr_text(c.sys@.attr("identity"@), read) == Ok::<
        Seq<char>,
        ErrorView,
    >(want)
}

/// The watchdog of the first candidate of which `p` holds.
pub open spec fn first_candidate(
    candidates: Seq<Candidate>,
    p: spec_fn(Candidate) -> bool,
) -> Option<EntryView>
    decreases candidates.len(),
{
    if candidates.len() == 0 {
        None
    } else if p(candidates[0]) {
        Some(candidates[0].sys@)
    } else {
        first_candidate(candidates.drop_first(), p)
    }
}

/// The watchdog under test: the first with the identity that is wanted; where none is wanted,
/// the first with number 0, or else the first of all.
pub open spec fn picked(
    candidates: Seq<Candidate>,
    want: Option<Seq<char>>,
) -> Result<EntryView, ErrorView> {
    if candidates.len() == 0 {
        Err(ErrorView::NoWatchdog)
    } else {
        match want {
            Some(id) => match first_candidate(candidates, |c: Candidate| has_identity(c, id)) {
                Some(e) => Ok(e),
                None => Err(ErrorView::NoSuchIdentity { want: id }),
            },
            None => match first_candidate(candidates, |c: Candidate| c.sys.index == 0) {
                Some(e) => Ok(e),
                None => Ok(candidates[0].sys@),
            },
        }
    }
}

/// A result that carries a watchdog, with both its sides as the specifications see them.
pub open spec fn entry_outcome(r: Result<WatchdogSysfs, Error>) -> Result<EntryView, ErrorView> {
    match r {
        Ok(sys) => Ok(sys@),
        Err(e) => Err(e@),
    }
}

/// An optional text as the specifications see it.
pub open spec fn wanted(want: Option<&str>) -> Option<Seq<char>> {
    match want {
        Some(id) => Some(id@),
        None => None,
    }
}

proof fn search_has_come_to(candidates: Seq<Candidate>, p: spec_fn(Candidate) -> bool, i: int)
    requires
        0 <= i <= candidates.len(),
        forall|k: int| 0 <= k < i ==> !p(#[trigger] candidates[k]),
    ensures
        i == candidates.len() ==> first_candidate(candidates, p) is None,
        i < candidates.len() && p(candidates[i]) ==> first_candidate(candidates, p) == Some(
            candidates[i].sys@,
        ),
    decreases candidates.len(),
{
    if i > 0 {
        assert(!p(candidates[0]));
        let rest = candidates.drop_first();
        assert forall|k: int| 0 <= k < i - 1 implies !p(#[trigger] rest[k]) by {
            assert(rest[k] == candidates[k + 1]);
        }
        search_has_come_to(rest, p, i - 1);
    }
}

fn entry_of(c: &Candidate) -> (r: WatchdogSysfs)
    ensures
        r@ == c.sys@,
{
    WatchdogSysfs { index: c.sys.index, sysfs: c.sys.sysfs.clone() }
}

/// The watchdog under test. `candidates` are the watchdogs of the system in the order of their
/// numbers; `want` is the environment variable `WATCHDOG_TEST_IDENTITY`, if it is set.
pub fn pick_watchdog(candidates: &Vec<Candidate>, want: Option<&str>) -> (r: Result<
    WatchdogSysfs,
    Error,
>)
    ensures
        entry_outcome(r) == picked(candidates@, wanted(want)),
        match (r, want) {
            (Ok(sys), Some(id)) => picked(candidates@, Some(id@)) == Ok::<EntryView, ErrorView>(
                EntryView { index: sys.index, sysfs: sys.sysfs@ },
            ),
            (Ok(sys), None) => picked(candidates@, None) == Ok::<EntryView, ErrorView>(
                EntryView { index: sys.index, sysfs: sys.sysfs@ },
            ),
            (Err(e), Some(id)) => picked(candidates@, Some(id@)) == Err::<EntryView, ErrorView>(
                e@,
            ),
            (Err(e), None) => picked(candidates@, None) == Err::<EntryView, ErrorView>(e@),
        },
{
    if candidates.len() == 0 {
        return Err(Error::NoWatchdog);
    }
    let mut i: usize = 0;
    if let Some(id) = want {
        let ghost p = |c: Candidate| has_identity(c, id@);
        while i < candidates.len()
            invariant
                want == Some(id),
                candidates@.len() > 0,
                i <= candidates@.len(),
                p == (|c: Candidate| has_identity(c, id@)),
                forall|k: int| 0 <= k < i ==> !p(#[trigger] candidates@[k]),
            decreases candidates@.len() - i,
        {
            let c: &Candidate = &candidates[i];
            if let Some(read) = &c.identity {
                if let Ok(text) = c.sys.identity(read) {
                    if same_text(text.as_str(), id) {
                        proof {
                            search_has_come_to(candidates@, p, i as int);
                        }
                        return Ok(entry_of(c));
                    }
                }
            }
            i += 1;
        }
        proof {
            search_has_come_to(candidates@, p, i as int);
        }
        return Err(Error::NoSuchIdentity { want: id.to_owned() });
    }
    let ghost p = |c: Candidate| c.sys.index == 0;
    while i < candidates.len()
        invariant
            want is None,
            candidates@.len() > 0,
            i <= candidates@.len(),
            p == (|c: Candidate| c.sys.index == 0),
            forall|k: int| 0 <= k < i ==> !p(#[trigger] candidates@[k]),
        decreases candidates@.len() - i,
    {
        let c: &Candidate = &candidates[i];
        if c.sys.index == 0 {
            proof {
                search_has_come_to(candidates@, p, i as int);
            }
            return Ok(entry_of(c));
        }
        i += 1;
    }
    proof {
        search_has_come_to(candidates@, p, i as int);
    }
    Ok(entry_of(&candidates[0]))
}

/// Whether the watchdog under test is the one that a test is made for.
#[derive(Debug)]
pub enum Gate {
    /// It is: the test runs on it.
    Run { sys: WatchdogSysfs },
    /// It is not; this line says so.
    Skip { marker: String },
}

/// A [`Gate`] with its texts as character sequences.
#[verifier::ext_equal]
pub enum GateView {
    Run { sys: EntryView },
    Skip { marker: Seq<char> },
}

impl View for Gate {
    type V = GateView;

    open spec fn view(&self) -> GateView {
        match *self {
            Gate::Run { sys } => GateView::Run { sys: sys@ },
            Gate::Skip { marker } => GateView::Skip { marker: marker@ },
        }
    }
}

/// A result that carries a gate, with both its sides as the specifications see them.
pub open spec fn gate_outcome(r: Result<Gate, Error>) -> Result<GateView, ErrorView> {
    match r {
        Ok(gate) => Ok(gate@),
        Err(e) => Err(e@),
    }
}

/// A result that carries a watchdog and what reading its identity gave, with both its sides as
/// the specifications see them.
pub open spec fn picked_outcome(r: Result<(WatchdogSysfs, AttrRead), Error>) -> Result<
    (EntryView, AttrRead),
    ErrorView,
> {
    match r {
        Ok((sys, read)) => Ok((sys@, read)),
        Err(e) => Err(e@),
    }
}

/// Whether a test for the identity `want` runs on the watchdog that was picked. Without any
/// watchdog it is skipped; any other failure to pick one, or to read its identity, is handed on.
pub open spec fn gated(
    picked: Result<(EntryView, AttrRead), ErrorView>,
    want: Seq<char>,
) -> Result<GateView, ErrorView> {
    match picked {
        Ok((sys, read)) => match attr_text(sys.attr("identity"@), read) {
            Ok(id) => if id == want {
                Ok(GateView::Run { sys })
            } else {
                Ok(
                    GateView::Skip {
                        marker: "# SKIP: identity "@ + quoted(id) + " is not "@ + quoted(want),
                    },
                )
            },
            Err(e) => Err(e),
        },
        Err(ErrorView::NoWatchdog) => Ok(
            GateView::Skip {
                marker: "# SKIP: no watchdog is loaded, so none is "@ + quoted(want),
            },
        ),
        Err(e) => Err(e),
    }
}

/// The line that says that a test is skipped because the watchdog under test has another
/// identity. Both identities come in `Debug` form.
pub fn other_identity_marker(id: &str, want: &str) -> (r: String)
    ensures
        r@ == "# SKIP: identity "@ + id@ + " is not "@ + want@,
{
    let mut marker: String = "# SKIP: identity ".to_owned();
    marker.append(id);
    marker.append(" is not ");
    marker.append(want);
    marker
}

/// The line that says that a test is skipped because there is no watchdog at all. The identity
/// that the test wants comes in `Debug` form.
pub fn no_watchdog_marker(want: &str) -> (r: String)
    ensures
        r@ == "# SKIP: no watchdog is loaded, so none is "@ + want@,
{
    let mut marker: String = "# SKIP: no watchdog is loaded, so none is ".to_owned();
    marker.append(want);
    marker
}

/// Lets a test run only on the driver that it is made for: the one with the identity `want`.
/// `picked` is the watchdog under test, with what reading its attribute `identity` gave. Without
/// any watchdog the driver is not loaded, and the test is skipped as it is for another driver;
/// other failures to pick a watchdog are handed on.
pub fn skip_unless_identity(
    picked: Result<(WatchdogSysfs, AttrRead), Error>,
    want: &str,
) -> (r: Result<Gate, Error>)
    ensures
        gate_outcome(r) == gated(picked_outcome(picked), want@),
        match picked {
            Ok((sys, AttrRead::Content { text })) => if trimmed(text@) == want@ {
                r matches Ok(Gate::Run { sys: s }) && s.index == sys.index && s.sysfs@
                    == sys.sysfs@
            } else {
                r matches Ok(Gate::Skip { marker }) && marker@ == "# SKIP: identity "@ + quoted(
                    trimmed(text@),
                ) + " is not "@ + quoted(want@)
            },
            Ok(_) => r is Err,
            Err(Error::NoWatchdog) => r matches Ok(Gate::Skip { .. }),
            Err(error) => r matches Err(e) && e@ == error@,
        },
{
    match picked {
        Err(Error::NoWatchdog) => Ok(
            Gate::Skip { marker: no_watchdog_marker(quote(want).as_str()) },
        ),
        Err(e) => Err(e),
        Ok((sys, read)) => match sys.identity(&read) {
            Err(e) => Err(e),
            Ok(id) => {
                if same_text(id.as_str(), want) {
                    Ok(Gate::Run { sys })
                } else {
                    let marker: String = other_identity_marker(
                        quote(id.as_str()).as_str(),
                        quote(want).as_str(),
                    );
                    Ok(Gate::Skip { marker })
                }
            },
        },
    }
}

/// On a system without watchdogs no driver is loaded: nothing can be picked, whatever identity
/// is wanted, and every test for a driver is skipped.
pub proof fn without_watchdogs_a_test_is_skipped(pinned: Option<Seq<char>>, want: Seq<char>)
    ensures
        picked(Seq::empty(), pinned) == Err::<EntryView, ErrorView>(ErrorView::NoWatchdog),
        gated(Err(ErrorView::NoWatchdog), want) matches Ok(gate) && gate is Skip,
{
}

/// With a wanted identity, the choice falls on a watchdog exactly when some watchdog has that
/// identity, and it is then the first of those.
pub proof fn pick_finds_the_wanted_identity(candidates: Seq<Candidate>, want: Seq<char>)
    requires
        candidates.len() > 0,
    ensures
        picked(candidates, Some(want)) is Ok <==> exists|i: int|
            0 <= i < candidates.len() && has_identity(#[trigger] candidates[i], want),
        picked(candidates, Some(want)) matches Ok(e) ==> exists|i: int|
            {
                &&& 0 <= i < candidates.len()
                &&& has_identity(#[trigger] candidates[i], want)
                &&& e == candidates[i].sys@
                &&& forall|k: int| 0 <= k < i ==> !has_identity(#[trigger] candidates[k], want)
            },
        picked(candidates, Some(want)) matches Err(e) ==> e == (ErrorView::NoSuchIdentity { want }),
{
    let p = |c: Candidate| has_identity(c, want);
    let i = least_hit(candidates, p, 0);
    search_has_come_to(candidates, p, i);
}

proof fn least_hit(candidates: Seq<Candidate>, p: spec_fn(Candidate) -> bool, from: int) -> (i: int)
    requires
        0 <= from <= candidates.len(),
        forall|k: int| 0 <= k < from ==> !p(#[trigger] candidates[k]),
    ensures
        0 <= i <= candidates.len(),
        forall|k: int| 0 <= k < i ==> !p(#[trigger] candidates[k]),
        i < candidates.len() ==> p(candidates[i]),
    decreases candidates.len() - from,
{
    if from == candidates.len() || p(candidates[from]) {
        from
    } else {
        least_hit(candidates, p, from + 1)
    }
}

/// With no wanted identity and the watchdogs in the order of their numbers, the choice falls on
/// the first of them: watchdog 0 if there is one, and otherwise the one with the least number.
pub proof fn default_pick_is_the_first_in_order(candidates: Seq<Candidate>)
    requires
        candidates.len() > 0,
        in_index_order(candidates.map_values(|c: Candidate| c.sys@)),
    ensures
        picked(candidates, None) == Ok::<EntryView, ErrorView>(candidates[0].sys@),
        forall|i: int|
            0 <= i < candidates.len() ==> candidates[0].sys.index <= (
            #[trigger] candidates[i]).sys.index,
{
    let views = candidates.map_values(|c: Candidate| c.sys@);
    assert forall|i: int| 0 <= i < candidates.len() implies candidates[0].sys.index <= (
    #[trigger] candidates[i]).sys.index by {
        assert(views[0].index <= views[i].index);
    }
    let p = |c: Candidate| c.sys.index == 0;
    if p(candidates[0]) {
        search_has_come_to(candidates, p, 0);
    } else {
        search_has_come_to(candidates, p, candidates.len() as int);
    }
}

// ---------------------------------------------------------------------------
// What does the driver support?
// ---------------------------------------------------------------------------

/// Fails unless the driver advertises every option bit in `required`.
pub fn assert_options_supports(info: &WatchdogInfo, required: u32, what: &str) -> (r: Result<
    (),
    Error,
>)
    ensures
        outcome(r) == (if missing_options(*info, required) == 0 {
            Ok(())
        } else {
            Err(
                ErrorView::OptionsMissing {
                    what: what@,
                    required,
                    missing: missing_options(*info, required),
                    advertised: info.options,
                },
            )
        }),
{
    let missing: u32 = required & !info.options;
    if missing == 0 {
        Ok(())
    } else {
        Err(
            Error::OptionsMissing {
                what: what.to_owned(),
                required,
                missing,
                advertised: info.options,
            },
        )
    }
}

// ---------------------------------------------------------------------------
// Sessions
// ---------------------------------------------------------------------------

/// How a session on a device ended.
#[derive(Debug)]
pub struct Session<T> {
    /// What the body of the session returned, or why there was no session.
    pub result: Result<T, Error>,
    /// The magic close that is still to be done, whatever the body returned. Whether it succeeds
    /// does not matter any more.
    pub close: Option<MagicClose>,
}

/// Runs `f` on the device of `sys`, given how opening its node went, and then closes the device
/// so that the watchdog stops: whatever `f` returns, the magic byte is the next thing written.
/// Where the device did not open, `f` is not run: nothing is known of it that would allow that.
pub fn with_open<F, T>(sys: &WatchdogSysfs, opened: Result<(), String>, f: F) -> (r: Session<
    T,
>) where F: FnOnce(&Watchdog) -> Result<T, Error>
    requires
        opened is Ok ==> forall|w: &Watchdog|
            w@ == WatchdogView::opened(sys@.node()) ==> #[trigger] call_requires(f, (w,)),
    ensures
        match opened {
            Ok(_) => {
                &&& exists|w: &Watchdog|
                    {
                        &&& w@ == WatchdogView::opened(sys@.node())
                        &&& #[trigger] call_ensures(f, (w,), r.result)
                    }
                &&& r.close matches Some(c) && {
                    &&& c.handle() == WatchdogView::opened(sys@.node())
                    &&& forall|written: bool|
                        (#[trigger] c.handle().magic_close_trace(written))[0] == (
                        DeviceOp::Write { byte: MAGIC_BYTE })
                }
            },
            Err(cause) => {
                &&& r.result matches Err(e) && e@ == (ErrorView::OpenNode {
                    node: sys@.node(),
                    cause: cause@,
                })
                &&& r.close is None
            },
        },
{
    match opened {
        Err(cause) => Session {
            result: Err(Error::OpenNode { node: sys.dev_node(), cause }),
            close: None,
        },
        Ok(_) => match sys.open_dev(Ok(())) {
            Err(e) => Session { result: Err(e), close: None },
            Ok(handle) => {
                let result: Result<T, Error> = f(&handle);
                Session { result, close: Some(handle.magic_close()) }
            },
        },
    }
}

// ---------------------------------------------------------------------------
// Reports
// ---------------------------------------------------------------------------

/// The `Debug` form of an optional number.
pub open spec fn shown_number(n: Option<u32>) -> Seq<char> {
    match n {
        Some(n) => "Some("@ + decimal(n as nat) + ")"@,
        None => "None"@,
    }
}

/// The `Debug` form of an optional truth value.
pub open spec fn shown_flag(b: Option<bool>) -> Seq<char> {
    match b {
        Some(true) => "Some(true)"@,
        Some(false) => "Some(false)"@,
        None => "None"@,
    }
}

/// One line on a watchdog, with its identity in `Debug` form. An attribute that cannot be read,
/// or holds no number where one is due, shows as `None`.
pub open spec fn description(
    index: u32,
    identity: Seq<char>,
    options: u32,
    timeout: Option<u32>,
    nowayout: Option<bool>,
) -> Seq<char> {
    "watchdog"@ + decimal(index as nat) + " identity="@ + identity + " options=0x"@ + hex(
        options as nat,
        4,
    ) + " timeout="@ + shown_number(timeout) + "s nowayout="@ + shown_flag(nowayout)
}

fn show_number(n: Option<u32>) -> (r: String)
    ensures
        r@ == shown_number(n),
{
    match n {
        Some(n) => {
            let mut out: String = "Some(".to_owned();
            out.append(decimal_text(n).as_str());
            out.append(")");
            out
        },
        None => "None".to_owned(),
    }
}

fn show_flag(b: Option<bool>) -> (r: &'static str)
    ensures
        r@ == shown_flag(b),
{
    match b {
        Some(true) => "Some(true)",
        Some(false) => "Some(false)",
        None => "None",
    }
}

/// The number in the attribute of `sys` at `name`, if it can be read.
pub open spec fn readable_number(sys: EntryView, name: Seq<char>, read: AttrRead) -> Option<u32> {
    match attr_number(sys.attr(name), read) {
        Ok(n) => Some(n),
        Err(_) => None,
    }
}

/// Whether the attribute of `sys` at `name` is `1`, if it can be read.
pub open spec fn readable_flag(sys: EntryView, name: Seq<char>, read: AttrRead) -> Option<bool> {
    match attr_text(sys.attr(name), read) {
        Ok(text) => Some(text == "1"@),
        Err(_) => None,
    }
}

/// How opening a device and asking it for its [`WatchdogInfo`] went.
#[derive(Debug)]
pub enum InfoRead {
    /// The device could not be opened.
    OpenFailed { cause: String },
    /// The device was opened, but refused the request with this error number.
    Refused { errno: i32 },
    /// The device answered.
    Answered { info: WatchdogInfo },
}

/// What asking the device of `sys` for its info gives.
pub open spec fn info_outcome(sys: EntryView, read: InfoRead) -> Result<WatchdogInfo, ErrorView> {
    match read {
        InfoRead::OpenFailed { cause } => Err(
            ErrorView::OpenDevice { path: sys.node(), cause: cause@ },
        ),
        InfoRead::Refused { errno } => Err(
            ErrorView::Ioctl { request: Request::GetSupport, errno },
        ),
        InfoRead::Answered { info } => Ok(info),
    }
}

/// What is done with the file of the device of `sys` once it has been asked: the handle is
/// dropped, whatever the answer was. A device that did not open has no file.
pub open spec fn info_trace(sys: EntryView, read: InfoRead) -> Seq<DeviceOp> {
    if read is OpenFailed {
        Seq::empty()
    } else {
        WatchdogView::opened(sys.node()).drop_trace()
    }
}

/// The end of asking a device for its info.
#[derive(Debug)]
pub struct InfoQuery {
    /// The info, or why there is none.
    pub info: Result<WatchdogInfo, Error>,
    /// What is left to be done with the file. Whether it succeeds does not matter any more.
    pub ops: Vec<DeviceOp>,
}

/// Asks a device that has opened for its info, given its reply, and drops it.
fn ask_open_device(sys: &WatchdogSysfs, reply: Result<WatchdogInfo, i32>) -> (r: InfoQuery)
    ensures
        outcome(r.info) == (match reply {
            Ok(info) => Ok(info),
            Err(errno) => Err(ErrorView::Ioctl { request: Request::GetSupport, errno }),
        }),
        r.ops@ == WatchdogView::opened(sys@.node()).drop_trace(),
{
    match sys.open_dev(Ok(())) {
        Ok(handle) => InfoQuery { info: handle.info().finish(reply), ops: handle.drop_ops() },
        Err(e) => InfoQuery { info: Err(e), ops: Vec::new() },
    }
}

/// Asks the device of `sys` for its info, given how that went, and drops the device.
pub fn ask_info(sys: &WatchdogSysfs, read: InfoRead) -> (r: InfoQuery)
    ensures
        outcome(r.info) == info_outcome(sys@, read),
        r.ops@ == info_trace(sys@, read),
{
    match read {
        InfoRead::OpenFailed { cause } => InfoQuery {
            info: Err(Error::OpenDevice { path: sys.dev_node(), cause }),
            ops: Vec::new(),
        },
        InfoRead::Refused { errno } => ask_open_device(sys, Err(errno)),
        InfoRead::Answered { info } => ask_open_device(sys, Ok(info)),
    }
}

/// One line on watchdog number `index`, with its identity in `Debug` form.
pub fn description_line(
    index: u32,
    identity: &str,
    options: u32,
    timeout: Option<u32>,
    nowayout: Option<bool>,
) -> (r: String)
    ensures
        r@ == description(index, identity@, options, timeout, nowayout),
{
    let mut out: String = "watchdog".to_owned();
    out.append(decimal_text(index).as_str());
    out.append(" identity=");
    out.append(identity);
    out.append(" options=0x");
    out.append(hex_text(options, 4).as_str());
    out.append(" timeout=");
    out.append(show_number(timeout).as_str());
    out.append("s nowayout=");
    out.append(show_flag(nowayout));
    out
}

/// The line on `sys` that follows from what its device says of itself and from what reading its
/// attributes `timeout` and `nowayout` gave.
pub open spec fn described(
    sys: EntryView,
    info: Result<WatchdogInfo, ErrorView>,
    timeout: AttrRead,
    nowayout: AttrRead,
) -> Result<Seq<char>, ErrorView> {
    match info {
        Ok(i) => Ok(
            description(
                sys.index,
                quoted(identity_text(i.identity@)),
                i.options,
                readable_number(sys, "timeout"@, timeout),
                readable_flag(sys, "nowayout"@, nowayout),
            ),
        ),
        Err(e) => Err(e),
    }
}

/// One line on the watchdog `sys`, given its info or why there is none, and what reading its
/// attributes `timeout` and `nowayout` gave.
pub fn describe_info(
    sys: &WatchdogSysfs,
    info: Result<WatchdogInfo, Error>,
    timeout: &AttrRead,
    nowayout: &AttrRead,
) -> (r: Result<String, Error>)
    ensures
        text_outcome(r) == described(sys@, outcome(info), *timeout, *nowayout),
{
    let info: WatchdogInfo = match info {
        Ok(i) => i,
        Err(e) => return Err(e),
    };
    let secs: Option<u32> = match sys.timeout(timeout) {
        Ok(n) => Some(n),
        Err(_) => None,
    };
    let fixed: Option<bool> = match sys.nowayout(nowayout) {
        Ok(b) => Some(b),
        Err(_) => None,
    };
    let identity: String = quote(identity_str(&info));
    Ok(description_line(sys.index, identity.as_str(), info.options, secs, fixed))
}

/// A description of a watchdog, and what making it does to the device.
#[derive(Debug)]
pub struct Description {
    /// The line on the watchdog, or why there is none.
    pub result: Result<String, Error>,
    /// What is done with the file of the device, before the attributes are read.
    pub ops: Vec<DeviceOp>,
}

/// One line on the watchdog `sys`: its device is opened, asked and dropped, and then its
/// attributes are read. Whether there is a line depends on the device alone; on success and on
/// failure alike, a device that was opened gets exactly one byte, `V`, and is closed. This is
/// the whole course in one, for a caller who knows how every step went; [`ask_info`] and
/// [`describe_info`] are its two halves.
pub fn describe(
    sys: &WatchdogSysfs,
    read: InfoRead,
    timeout: &AttrRead,
    nowayout: &AttrRead,
) -> (r: Description)
    ensures
        text_outcome(r.result) == described(sys@, info_outcome(sys@, read), *timeout, *nowayout),
        r.result is Ok <==> read is Answered,
        r.ops@ == info_trace(sys@, read),
        match read {
            InfoRead::OpenFailed { cause } => r.result matches Err(e) && e@ == (
            ErrorView::OpenDevice { path: sys@.node(), cause: cause@ }) && r.ops@.len() == 0,
            InfoRead::Refused { errno } => r.result matches Err(e) && e@ == (ErrorView::Ioctl {
                request: Request::GetSupport,
                errno,
            }),
            InfoRead::Answered { info } => r.result matches Ok(line) && line@ == description(
                sys.index,
                quoted(identity_text(info.identity@)),
                info.options,
                readable_number(sys@, "timeout"@, *timeout),
                readable_flag(sys@, "nowayout"@, *nowayout),
            ),
        },
        !(read is OpenFailed) ==> r.ops@ == seq![
            DeviceOp::Write { byte: MAGIC_BYTE },
            DeviceOp::Close,
        ],
{
    let query: InfoQuery = ask_info(sys, read);
    Description { result: describe_info(sys, query.info, timeout, nowayout), ops: query.ops }
}

// ---------------------------------------------------------------------------
// What is picked, let through and reported, in terms of what was read
// ---------------------------------------------------------------------------

/// The attribute `identity` of the candidate was read, and its content, without the whitespace
/// around it, is `want`, character for character.
pub open spec fn shows(c: Candidate, want: Seq<char>) -> bool {
    c.identity matches Some(AttrRead::Content { text }) && trimmed(text@) == want
}

/// With a wanted identity, the watchdog that is picked shows exactly that identity, and no
/// watchdog before it does. Picking fails only where none shows it.
pub proof fn the_pick_shows_the_wanted_identity(candidates: Seq<Candidate>, want: Seq<char>)
    requires
        candidates.len() > 0,
    ensures
        match picked(candidates, Some(want)) {
            Ok(e) => exists|i: int|
                {
                    &&& 0 <= i < candidates.len()
                    &&& shows(#[trigger] candidates[i], want)
                    &&& e.index == candidates[i].sys.index
                    &&& e.sysfs == candidates[i].sys.sysfs@
                    &&& forall|k: int| 0 <= k < i ==> !shows(#[trigger] candidates[k], want)
                },
            Err(e) => {
                &&& e == (ErrorView::NoSuchIdentity { want })
                &&& forall|k: int|
                    0 <= k < candidates.len() ==> !shows(#[trigger] candidates[k], want)
            },
        },
{
    assert forall|k: int| 0 <= k < candidates.len() implies shows(#[trigger] candidates[k], want)
        == has_identity(candidates[k], want) by {}
    let p = |c: Candidate| has_identity(c, want);
    let i = least_hit(candidates, p, 0);
    search_has_come_to(candidates, p, i);
    if i < candidates.len() {
        assert(shows(candidates[i], want));
        assert forall|k: int| 0 <= k < i implies !shows(#[trigger] candidates[k], want) by {
            assert(!p(candidates[k]));
        }
    } else {
        assert forall|k: int| 0 <= k < candidates.len() implies !shows(
            #[trigger] candidates[k],
            want,
        ) by {
            assert(!p(candidates[k]));
        }
    }
}

/// With no wanted identity, the watchdog that is picked is the first with number 0, or the first
/// of all where none has number 0. Identities play no part.
pub proof fn the_default_pick_is_number_zero_or_the_first(candidates: Seq<Candidate>)
    requires
        candidates.len() > 0,
    ensures
        picked(candidates, None) is Ok,
        exists|i: int|
            {
                &&& 0 <= i < candidates.len()
                &&& picked(candidates, None)->Ok_0.index == (#[trigger] candidates[i]).sys.index
                &&& picked(candidates, None)->Ok_0.sysfs == candidates[i].sys.sysfs@
                &&& forall|k: int| 0 <= k < i ==> (#[trigger] candidates[k]).sys.index != 0
                &&& candidates[i].sys.index == 0 || (i == 0 && forall|k: int|
                    0 <= k < candidates.len() ==> (#[trigger] candidates[k]).sys.index != 0)
            },
{
    let p = |c: Candidate| c.sys.index == 0;
    let i = least_hit(candidates, p, 0);
    search_has_come_to(candidates, p, i);
    assert forall|k: int| 0 <= k < i implies (#[trigger] candidates[k]).sys.index != 0 by {
        assert(!p(candidates[k]));
    }
    if i < candidates.len() {
        assert(candidates[i].sys.index == 0);
    } else {
        assert(candidates[0].sys.index != 0);
    }
}

/// Where no watchdog is there to be picked, that is the failure, whatever is wanted; where there
/// is one, it never is.
pub proof fn picking_from_none_fails(candidates: Seq<Candidate>, want: Option<Seq<char>>)
    ensures
        picked(candidates, want) == Err::<EntryView, ErrorView>(ErrorView::NoWatchdog)
            <==> candidates.len() == 0,
{
}

/// A test runs on the watchdog that was picked exactly if the content of its attribute
/// `identity`, without the whitespace around it, is the identity that the test is made for,
/// character for character; otherwise it is skipped.
pub proof fn a_test_runs_on_its_own_identity_only(
    sys: EntryView,
    text: String,
    want: Seq<char>,
)
    ensures
        ({
            let gate = gated(Ok((sys, AttrRead::Content { text })), want);
            &&& gate is Ok
            &&& trimmed(text@) == want <==> gate->Ok_0 is Run
            &&& trimmed(text@) != want <==> gate->Ok_0 is Skip
            &&& gate->Ok_0 matches GateView::Run { sys: s } ==> s == sys
            &&& gate->Ok_0 matches GateView::Skip { marker } ==> marker == "# SKIP: identity "@
                + quoted(trimmed(text@)) + " is not "@ + quoted(want)
        }),
{
}

/// A test is neither run nor skipped where the identity cannot be read, or where picking a
/// watchdog failed for another reason than that there is none.
pub proof fn a_gate_hands_failures_on(
    sys: EntryView,
    cause: String,
    error: ErrorView,
    want: Seq<char>,
)
    requires
        error != ErrorView::NoWatchdog,
    ensures
        gated(Ok((sys, AttrRead::OpenFailed { cause })), want) == Err::<GateView, ErrorView>(
            ErrorView::OpenAttr { path: sys.attr("identity"@), cause: cause@ },
        ),
        gated(Ok((sys, AttrRead::ReadFailed { cause })), want) == Err::<GateView, ErrorView>(
            ErrorView::Io { cause: cause@ },
        ),
        gated(Err(error), want) == Err::<GateView, ErrorView>(error),
{
}

/// A description is made of the number, the identity, the options, the timeout and `nowayout`,
/// in this order. Number and timeout are in decimal, the options in hexadecimal with four digits
/// at least; what could not be read is `None`.
pub proof fn a_description_tells_everything(
    index: u32,
    identity: Seq<char>,
    options: u32,
    timeout: Option<u32>,
    nowayout: Option<bool>,
) -> (r: (Seq<char>, Seq<char>, Seq<char>, Seq<char>))
    ensures
        description(index, identity, options, timeout, nowayout) == "watchdog"@ + r.0
            + " identity="@ + identity + " options=0x"@ + r.1 + " timeout="@ + r.2
            + "s nowayout="@ + r.3,
        weight(r.0, 10) == index,
        r.0.len() > 0,
        r.0[0] == '0' ==> r.0.len() == 1,
        weight(r.1, 16) == options,
        r.1.len() >= 4,
        r.1.len() > 4 ==> r.1[0] != '0',
        match timeout {
            Some(n) => exists|secs: Seq<char>|
                {
                    &&& r.2 == "Some("@ + secs + ")"@
                    &&& #[trigger] weight(secs, 10) == n
                    &&& secs.len() > 0
                    &&& secs[0] == '0' ==> secs.len() == 1
                },
            None => r.2 == "None"@,
        },
        match nowayout {
            Some(true) => r.3 == "Some(true)"@,
            Some(false) => r.3 == "Some(false)"@,
            None => r.3 == "None"@,
        },
{
    decimals_denote_their_numbers(index as nat);
    padded_hex_denotes_its_number(options as nat, 4);
    if let Some(n) = timeout {
        decimals_denote_their_numbers(n as nat);
        assert(weight(decimal(n as nat), 10) == n);
    }
    (
        decimal(index as nat),
        hex(options as nat, 4),
        shown_number(timeout),
        shown_flag(nowayout),
    )
}

/// What a description shows of the attributes: a timeout exactly where the content, trimmed, is
/// a number, and `nowayout` wherever the attribute can be read, as `true` exactly where its
/// content, trimmed, is `1`.
pub proof fn a_description_shows_what_can_be_read(
    sys: EntryView,
    name: Seq<char>,
    text: String,
    cause: String,
)
    ensures
        readable_number(sys, name, AttrRead::Content { text }) == (match parsed_u32(
            trimmed(text@),
        ) {
            Ok(n) => Some(n),
            Err(_) => None,
        }),
        readable_flag(sys, name, AttrRead::Content { text }) == Some(trimmed(text@) == "1"@),
        readable_number(sys, name, AttrRead::OpenFailed { cause }) is None,
        readable_number(sys, name, AttrRead::ReadFailed { cause }) is None,
        readable_flag(sys, name, AttrRead::OpenFailed { cause }) is None,
        readable_flag(sys, name, AttrRead::ReadFailed { cause }) is None,
{
}

} // verus!

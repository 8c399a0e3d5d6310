//! Trial runner: validation of start requests, the commands and options of
//! the scout and forward phases, reference selection, and the job/log state
//! machine behind start, stop, finish and status.

use vstd::prelude::*;
use std::collections::VecDeque;
use crate::text::{trim_str, to_lowercase_str, trimmed, lowercased, str_equals, strings_view, decimal, signed_decimal,
    u64_to_decimal, i32_to_decimal, concat_str, lemma_decimal_is_digits, is_digit_char};

verus! {

/// Default scout duration (s).
pub const DEFAULT_SCOUT_DURATION_S: u64 = 900;
/// Default number of scout cycles.
pub const DEFAULT_SCOUT_CYCLES: u64 = 1;
/// Default expand duration (s).
pub const DEFAULT_EXPAND_DURATION_S: u64 = 900;
/// Default number of expand cycles.
pub const DEFAULT_EXPAND_CYCLES: u64 = 1;
/// Default forward run budget (s).
pub const DEFAULT_FORWARD_MAX_BUDGET_S: u64 = 240;
/// Default forward grace period (s).
pub const DEFAULT_FORWARD_GRACE_PERIOD_S: u64 = 60;
/// Default forward progress report interval (s).
pub const DEFAULT_FORWARD_REPORT_INTERVAL_S: u64 = 30;
/// Default number of scout references a forward run takes.
pub const DEFAULT_FORWARD_MAX_REFS: u64 = 64;
/// Default number of configs a forward run takes.
pub const DEFAULT_FORWARD_MAX_CONFIGS: u64 = 1200;
/// Upper bound on the references of a forward run.
pub const FORWARD_MAX_REFS_HARD_CAP: u64 = 256;
/// Upper bound on the configs of a forward run.
pub const FORWARD_MAX_CONFIGS_HARD_CAP: u64 = 5000;
/// Default number of configs promoted.
pub const DEFAULT_PROMOTE_TOP_K: u64 = 50;
/// Default minimum trades of a promoted config.
pub const DEFAULT_PROMOTE_MIN_TRADES: u64 = 5;

/// A request to start a runner phase. The minimum PnL of promotion is not
/// used by any phase that runs here and is not carried.
#[derive(Debug, Clone, PartialEq, Eq)]
pub struct RunnerStartRequest {
    pub phase: String,
    pub duration: Option<u64>,
    pub cycles: Option<u64>,
    pub max_budget: Option<u64>,
    pub grace_period: Option<u64>,
    pub report_interval: Option<u64>,
    pub max_refs: Option<u64>,
    pub max_configs: Option<u64>,
    pub run_id: Option<String>,
    pub top_k: Option<u64>,
    pub min_trades: Option<u64>,
}

/// Answer to a started job.
#[derive(Debug, Clone, PartialEq, Eq)]
pub struct RunnerStartResponse {
    pub job_id: u64,
    pub phase: String,
    pub command: String,
    pub started_at_ms: i64,
}

/// Answer to a stop request.
#[derive(Debug, Clone, Copy, PartialEq, Eq)]
pub struct RunnerStopResponse {
    pub stop_requested: bool,
}

/// A program and its arguments.
#[derive(Debug, Clone, PartialEq, Eq)]
pub struct RunnerCommandSpec {
    pub program: String,
    pub args: Vec<String>,
}

/// Options of a forward run.
#[derive(Debug, Clone, Copy, PartialEq, Eq)]
pub struct ForwardPhaseOptions {
    pub max_budget_s: u64,
    pub grace_period_s: u64,
    pub report_interval_s: u64,
    pub max_refs: u64,
    pub max_configs: u64,
}

/// Class of a runner error.
#[derive(Debug, Clone, Copy, PartialEq, Eq)]
pub enum RunnerErrorKind {
    BadRequest,
    Conflict,
    Internal,
}

/// A runner error with its message.
#[derive(Debug, Clone, PartialEq, Eq)]
pub struct RunnerError {
    pub kind: RunnerErrorKind,
    pub message: String,
}

impl RunnerError {
    /// A bad-request error.
    pub fn bad_request(message: String) -> (e: Self)
        ensures
            e.kind == RunnerErrorKind::BadRequest,
            e.message@ == message@,
    {
        RunnerError { kind: RunnerErrorKind::BadRequest, message }
    }

    /// A conflict error.
    pub fn conflict(message: String) -> (e: Self)
        ensures
            e.kind == RunnerErrorKind::Conflict,
            e.message@ == message@,
    {
        RunnerError { kind: RunnerErrorKind::Conflict, message }
    }

    /// An internal error.
    pub fn internal(message: String) -> (e: Self)
        ensures
            e.kind == RunnerErrorKind::Internal,
            e.message@ == message@,
    {
        RunnerError { kind: RunnerErrorKind::Internal, message }
    }
}

/// `x` clamped into `[lo, hi]`.
pub open spec fn clamp_u64(x: u64, lo: u64, hi: u64) -> u64 {
    if x < lo { lo } else if x > hi { hi } else { x }
}

fn clamp_between(x: u64, lo: u64, hi: u64) -> (r: u64)
    ensures
        r == clamp_u64(x, lo, hi),
{
    if x < lo { lo } else if x > hi { hi } else { x }
}

/// Requested value or its default.
pub open spec fn or_default(v: Option<u64>, d: u64) -> u64 {
    match v {
        Some(x) => x,
        None => d,
    }
}

/// The forward options a request asks for (defaults applied, caps applied),
/// or the message of the first zero among budget, grace period and report
/// interval.
pub open spec fn spec_forward_options(req: RunnerStartRequest) -> Result<ForwardPhaseOptions, Seq<char>> {
    let b = or_default(req.max_budget, DEFAULT_FORWARD_MAX_BUDGET_S);
    let g = or_default(req.grace_period, DEFAULT_FORWARD_GRACE_PERIOD_S);
    let r = or_default(req.report_interval, DEFAULT_FORWARD_REPORT_INTERVAL_S);
    if b == 0 {
        Err("max_budget must be >= 1"@)
    } else if g == 0 {
        Err("grace_period must be >= 1"@)
    } else if r == 0 {
        Err("report_interval must be >= 1"@)
    } else {
        Ok(ForwardPhaseOptions {
            max_budget_s: b,
            grace_period_s: g,
            report_interval_s: r,
            max_refs: clamp_u64(or_default(req.max_refs, DEFAULT_FORWARD_MAX_REFS), 1, FORWARD_MAX_REFS_HARD_CAP),
            max_configs: clamp_u64(or_default(req.max_configs, DEFAULT_FORWARD_MAX_CONFIGS), 1, FORWARD_MAX_CONFIGS_HARD_CAP),
        })
    }
}

/// Options of a forward run (see [`spec_forward_options`]); refusals are bad requests.
pub fn forward_phase_options(req: &RunnerStartRequest) -> (r: Result<ForwardPhaseOptions, RunnerError>)
    ensures
        match spec_forward_options(*req) {
            Ok(o) => r == Ok::<ForwardPhaseOptions, RunnerError>(o),
            Err(m) => r is Err && r->Err_0.kind == RunnerErrorKind::BadRequest && r->Err_0.message@ == m,
        },
{
    let max_budget_s = match req.max_budget { Some(x) => x, None => DEFAULT_FORWARD_MAX_BUDGET_S };
    let grace_period_s = match req.grace_period { Some(x) => x, None => DEFAULT_FORWARD_GRACE_PERIOD_S };
    let report_interval_s = match req.report_interval { Some(x) => x, None => DEFAULT_FORWARD_REPORT_INTERVAL_S };
    let max_refs = match req.max_refs { Some(x) => x, None => DEFAULT_FORWARD_MAX_REFS };
    let max_configs = match req.max_configs { Some(x) => x, None => DEFAULT_FORWARD_MAX_CONFIGS };
    if max_budget_s == 0 {
        return Err(RunnerError::bad_request("max_budget must be >= 1".to_owned()));
    }
    if grace_period_s == 0 {
        return Err(RunnerError::bad_request("grace_period must be >= 1".to_owned()));
    }
    if report_interval_s == 0 {
        return Err(RunnerError::bad_request("report_interval must be >= 1".to_owned()));
    }
    Ok(ForwardPhaseOptions {
        max_budget_s,
        grace_period_s,
        report_interval_s,
        max_refs: clamp_between(max_refs, 1, FORWARD_MAX_REFS_HARD_CAP),
        max_configs: clamp_between(max_configs, 1, FORWARD_MAX_CONFIGS_HARD_CAP),
    })
}

/// Budget of a forward run (s): its maximum budget; the grace period does
/// not extend it.
pub fn forward_run_budget_s(opts: &ForwardPhaseOptions) -> (r: u64)
    ensures
        r == opts.max_budget_s,
{
    opts.max_budget_s
}

/// Progress report interval of a forward run (s), at least 1.
pub fn forward_report_interval_s(opts: &ForwardPhaseOptions) -> (r: u64)
    ensures
        r == (if opts.report_interval_s < 1 { 1 } else { opts.report_interval_s }),
{
    if opts.report_interval_s < 1 { 1 } else { opts.report_interval_s }
}

/// The command line shown for an internal forward run.
pub open spec fn forward_display(o: ForwardPhaseOptions) -> Seq<char> {
    "internal-forward --max-budget "@ + decimal(o.max_budget_s as nat)
        + " --grace-period "@ + decimal(o.grace_period_s as nat)
        + " --report-interval "@ + decimal(o.report_interval_s as nat)
        + " --max-refs "@ + decimal(o.max_refs as nat)
        + " --max-configs "@ + decimal(o.max_configs as nat)
}

fn append_str(acc: String, s: &str) -> (r: String)
    ensures
        r@ == acc@ + s@,
{
    concat_str(acc.as_str(), s)
}

fn append_u64(acc: String, n: u64) -> (r: String)
    ensures
        r@ == acc@ + decimal(n as nat),
{
    let d = u64_to_decimal(n);
    concat_str(acc.as_str(), d.as_str())
}

/// The command line shown for an internal forward run (see [`forward_display`]).
pub fn build_forward_display_command(opts: &ForwardPhaseOptions) -> (r: String)
    ensures
        r@ == forward_display(*opts),
{
    let s = "internal-forward --max-budget ".to_owned();
    let s = append_u64(s, opts.max_budget_s);
    let s = append_str(s, " --grace-period ");
    let s = append_u64(s, opts.grace_period_s);
    let s = append_str(s, " --report-interval ");
    let s = append_u64(s, opts.report_interval_s);
    let s = append_str(s, " --max-refs ");
    let s = append_u64(s, opts.max_refs);
    let s = append_str(s, " --max-configs ");
    append_u64(s, opts.max_configs)
}

/// Whether `t` occurs in `s` as a contiguous part.
pub open spec fn contains_part(s: Seq<char>, t: Seq<char>) -> bool {
    exists|i: int| 0 <= i && i + t.len() <= s.len() && #[trigger] s.subrange(i, i + t.len()) == t
}

/// The forward display command starts with `internal-forward` and never
/// mentions the Python driver.
pub proof fn lemma_forward_display_is_internal(o: ForwardPhaseOptions)
    ensures
        forward_display(o).subrange(0, 16) == "internal-forward"@,
        !contains_part(forward_display(o), "python3 -m ray_driver"@),
{
    reveal_strlit("internal-forward --max-budget ");
    reveal_strlit(" --grace-period ");
    reveal_strlit(" --report-interval ");
    reveal_strlit(" --max-refs ");
    reveal_strlit(" --max-configs ");
    reveal_strlit("internal-forward");
    reveal_strlit("python3 -m ray_driver");
    let s = forward_display(o);
    lemma_decimal_is_digits(o.max_budget_s as nat);
    lemma_decimal_is_digits(o.grace_period_s as nat);
    lemma_decimal_is_digits(o.report_interval_s as nat);
    lemma_decimal_is_digits(o.max_refs as nat);
    lemma_decimal_is_digits(o.max_configs as nat);
    assert(s.subrange(0, 16) =~= "internal-forward"@);
    assert forall|i: int| 0 <= i < s.len() implies s[i] != 'y' by {
        let p0 = "internal-forward --max-budget "@;
        let d0 = decimal(o.max_budget_s as nat);
        let p1 = " --grace-period "@;
        let d1 = decimal(o.grace_period_s as nat);
        let p2 = " --report-interval "@;
        let d2 = decimal(o.report_interval_s as nat);
        let p3 = " --max-refs "@;
        let d3 = decimal(o.max_refs as nat);
        let p4 = " --max-configs "@;
        let d4 = decimal(o.max_configs as nat);
        if i < p0.len() {
            assert(s[i] == p0[i]);
        } else if i < p0.len() + d0.len() {
            assert(s[i] == d0[i - p0.len()]);
        } else if i < p0.len() + d0.len() + p1.len() {
            assert(s[i] == p1[i - p0.len() - d0.len()]);
        } else if i < p0.len() + d0.len() + p1.len() + d1.len() {
            assert(s[i] == d1[i - p0.len() - d0.len() - p1.len()]);
        } else if i < p0.len() + d0.len() + p1.len() + d1.len() + p2.len() {
            assert(s[i] == p2[i - p0.len() - d0.len() - p1.len() - d1.len()]);
        } else if i < p0.len() + d0.len() + p1.len() + d1.len() + p2.len() + d2.len() {
            assert(s[i] == d2[i - p0.len() - d0.len() - p1.len() - d1.len() - p2.len()]);
        } else if i < p0.len() + d0.len() + p1.len() + d1.len() + p2.len() + d2.len() + p3.len() {
            assert(s[i] == p3[i - p0.len() - d0.len() - p1.len() - d1.len() - p2.len() - d2.len()]);
        } else if i < p0.len() + d0.len() + p1.len() + d1.len() + p2.len() + d2.len() + p3.len() + d3.len() {
            assert(s[i] == d3[i - p0.len() - d0.len() - p1.len() - d1.len() - p2.len() - d2.len() - p3.len()]);
        } else if i < p0.len() + d0.len() + p1.len() + d1.len() + p2.len() + d2.len() + p3.len() + d3.len() + p4.len() {
            assert(s[i] == p4[i - p0.len() - d0.len() - p1.len() - d1.len() - p2.len() - d2.len() - p3.len() - d3.len()]);
        } else {
            assert(s[i] == d4[i - p0.len() - d0.len() - p1.len() - d1.len() - p2.len() - d2.len() - p3.len() - d3.len() - p4.len()]);
        }
    }
    let t = "python3 -m ray_driver"@;
    if contains_part(s, t) {
        let i = choose|i: int| 0 <= i && i + t.len() <= s.len() && #[trigger] s.subrange(i, i + t.len()) == t;
        assert(s.subrange(i, i + t.len())[1] == t[1]);
        assert(s[i + 1] == 'y');
    }
}

/// The phase a request names: trimmed and lowercased.
pub open spec fn request_phase(req: RunnerStartRequest) -> Seq<char> {
    lowercased(trimmed(req.phase@))
}

/// The Python driver command for `phase` (already trimmed and lowercased)
/// with the options of a request, as arguments of `python3`, or the refusal
/// message.
pub open spec fn spec_phase_command(phase: Seq<char>, req: RunnerStartRequest) -> Result<Seq<Seq<char>>, Seq<char>> {
    if phase == "scout"@ {
        let cycles = or_default(req.cycles, DEFAULT_SCOUT_CYCLES);
        if cycles == 0 {
            Err("cycles must be >= 1"@)
        } else {
            Ok(seq!["-m"@, "ray_driver"@, "scout"@, "--duration"@, decimal(or_default(req.duration, DEFAULT_SCOUT_DURATION_S) as nat),
                "--cycles"@, decimal(cycles as nat)])
        }
    } else if phase == "forward"@ {
        match spec_forward_options(req) {
            Err(m) => Err(m),
            Ok(o) => Ok(seq!["-m"@, "ray_driver"@, "forward"@,
                "--max-budget"@, decimal(o.max_budget_s as nat),
                "--grace-period"@, decimal(o.grace_period_s as nat),
                "--report-interval"@, decimal(o.report_interval_s as nat),
                "--max-refs"@, decimal(o.max_refs as nat),
                "--max-configs"@, decimal(o.max_configs as nat)]),
        }
    } else {
        Err("Unsupported phase: "@ + phase)
    }
}

/// The Python driver command of a scout or forward request (see
/// [`spec_phase_command`] of its trimmed and lowercased phase).
pub open spec fn spec_runner_command(req: RunnerStartRequest) -> Result<Seq<Seq<char>>, Seq<char>> {
    spec_phase_command(request_phase(req), req)
}

/// Builds the Python driver command of a request (see [`spec_runner_command`]).
pub fn build_trial_runner_command(req: &RunnerStartRequest) -> (r: Result<RunnerCommandSpec, String>)
    ensures
        match spec_runner_command(*req) {
            Ok(args) => r is Ok && r->Ok_0.program@ == "python3"@ && strings_view(r->Ok_0.args@) == args,
            Err(m) => r is Err && r->Err_0@ == m,
        },
{
    let phase = to_lowercase_str(trim_str(req.phase.as_str()));
    build_phase_command(phase.as_str(), req)
}

/// Builds the Python driver command for a phase already trimmed and
/// lowercased, with the options of a request (see [`spec_phase_command`]).
pub fn build_phase_command(phase: &str, req: &RunnerStartRequest) -> (r: Result<RunnerCommandSpec, String>)
    ensures
        match spec_phase_command(phase@, *req) {
            Ok(args) => r is Ok && r->Ok_0.program@ == "python3"@ && strings_view(r->Ok_0.args@) == args,
            Err(m) => r is Err && r->Err_0@ == m,
        },
{
    let mut args: Vec<String> = Vec::new();
    args.push("-m".to_owned());
    args.push("ray_driver".to_owned());
    if str_equals(phase, "scout") {
        let cycles = match req.cycles { Some(x) => x, None => DEFAULT_SCOUT_CYCLES };
        if cycles == 0 {
            return Err("cycles must be >= 1".to_owned());
        }
        let duration = match req.duration { Some(x) => x, None => DEFAULT_SCOUT_DURATION_S };
        args.push("scout".to_owned());
        args.push("--duration".to_owned());
        args.push(u64_to_decimal(duration));
        args.push("--cycles".to_owned());
        args.push(u64_to_decimal(cycles));
        proof {
            assert(strings_view(args@) =~= spec_phase_command(phase@, *req)->Ok_0);
        }
    } else if str_equals(phase, "forward") {
        let opts = match forward_phase_options(req) {
            Ok(o) => o,
            Err(e) => {
                return Err(e.message);
            },
        };
        args.push("forward".to_owned());
        args.push("--max-budget".to_owned());
        args.push(u64_to_decimal(opts.max_budget_s));
        args.push("--grace-period".to_owned());
        args.push(u64_to_decimal(opts.grace_period_s));
        args.push("--report-interval".to_owned());
        args.push(u64_to_decimal(opts.report_interval_s));
        args.push("--max-refs".to_owned());
        args.push(u64_to_decimal(opts.max_refs));
        args.push("--max-configs".to_owned());
        args.push(u64_to_decimal(opts.max_configs));
        proof {
            assert(strings_view(args@) =~= spec_phase_command(phase@, *req)->Ok_0);
        }
    } else {
        return Err(concat_str("Unsupported phase: ", phase));
    }
    Ok(RunnerCommandSpec { program: "python3".to_owned(), args })
}

/// A scout reference row. `avg_pnl_key` orders exactly as the average PnL
/// percentage does; `avg_pnl_finite` tells whether that percentage is finite.
#[derive(Debug, Clone, Copy, PartialEq, Eq)]
pub struct ScoutReferenceRow {
    pub config_id: i64,
    pub trades: u64,
    pub avg_pnl_key: i64,
    pub avg_pnl_finite: bool,
}

/// A reference row is usable: a non-zero config id, trades, a finite PnL.
pub open spec fn reference_valid(r: ScoutReferenceRow) -> bool {
    r.config_id != 0 && r.trades > 0 && r.avg_pnl_finite
}

/// Order of reference rows: -1 when `a` comes first. Higher average PnL
/// first, then more trades, then the smaller config id.
pub open spec fn reference_order(a: ScoutReferenceRow, b: ScoutReferenceRow) -> int {
    if a.avg_pnl_key > b.avg_pnl_key { -1 }
    else if a.avg_pnl_key < b.avg_pnl_key { 1 }
    else if a.trades > b.trades { -1 }
    else if a.trades < b.trades { 1 }
    else if a.config_id < b.config_id { -1 }
    else if a.config_id > b.config_id { 1 }
    else { 0 }
}

/// Inserts `x` after every row that does not come after it.
pub open spec fn insert_reference(s: Seq<ScoutReferenceRow>, x: ScoutReferenceRow) -> Seq<ScoutReferenceRow>
    decreases s.len(),
{
    if s.len() == 0 {
        seq![x]
    } else if reference_order(s.last(), x) <= 0 {
        s.push(x)
    } else {
        insert_reference(s.drop_last(), x).push(s.last())
    }
}

/// Usable rows of `s`, in reference order (stable).
pub open spec fn sorted_references(s: Seq<ScoutReferenceRow>) -> Seq<ScoutReferenceRow>
    decreases s.len(),
{
    if s.len() == 0 {
        s
    } else if reference_valid(s.last()) {
        insert_reference(sorted_references(s.drop_last()), s.last())
    } else {
        sorted_references(s.drop_last())
    }
}

/// The config ids (as unsigned) of the first `max_refs` usable rows in
/// reference order.
pub open spec fn spec_selected_ids(rows: Seq<ScoutReferenceRow>, max_refs: u64) -> Seq<u64> {
    let sorted = sorted_references(rows);
    let n = if sorted.len() < max_refs { sorted.len() as int } else { max_refs as int };
    sorted.subrange(0, n).map_values(|r: ScoutReferenceRow| r.config_id as u64)
}

proof fn lemma_insert_reference_len(s: Seq<ScoutReferenceRow>, x: ScoutReferenceRow)
    ensures
        insert_reference(s, x).len() == s.len() + 1,
    decreases s.len(),
{
    if s.len() > 0 && reference_order(s.last(), x) > 0 {
        lemma_insert_reference_len(s.drop_last(), x);
    }
}

proof fn lemma_insert_reference_split(s: Seq<ScoutReferenceRow>, x: ScoutReferenceRow, j: int)
    requires
        0 <= j <= s.len(),
        forall|k: int| j <= k < s.len() ==> reference_order(#[trigger] s[k], x) > 0,
    ensures
        insert_reference(s, x) == insert_reference(s.subrange(0, j), x) + s.subrange(j, s.len() as int),
    decreases s.len() - j,
{
    if j == s.len() {
        assert(s.subrange(0, j) =~= s);
        assert(insert_reference(s, x) + s.subrange(j, s.len() as int) =~= insert_reference(s, x));
    } else {
        assert(reference_order(s[s.len() - 1], x) > 0);
        let d = s.drop_last();
        lemma_insert_reference_split(d, x, j);
        assert(d.subrange(0, j) =~= s.subrange(0, j));
        assert((insert_reference(d.subrange(0, j), x) + d.subrange(j, d.len() as int)).push(s.last())
            =~= insert_reference(d.subrange(0, j), x) + s.subrange(j, s.len() as int));
    }
}

fn reference_compare_after(a: &ScoutReferenceRow, b: &ScoutReferenceRow) -> (r: bool)
    ensures
        r == (reference_order(*a, *b) > 0),
{
    if a.avg_pnl_key != b.avg_pnl_key {
        a.avg_pnl_key < b.avg_pnl_key
    } else if a.trades != b.trades {
        a.trades < b.trades
    } else {
        a.config_id > b.config_id
    }
}

/// Config ids of the best scout references (see [`spec_selected_ids`]).
pub fn select_reference_ids(rows: &[ScoutReferenceRow], max_refs: u64) -> (ids: Vec<u64>)
    ensures
        ids@ == spec_selected_ids(rows@, max_refs),
{
    let n = rows.len();
    let mut sorted: Vec<ScoutReferenceRow> = Vec::new();
    let mut i: usize = 0;
    while i < n
        invariant
            n == rows@.len(),
            i <= n,
            sorted@ == sorted_references(rows@.subrange(0, i as int)),
            sorted@.len() <= i,
        decreases n - i,
    {
        let row = rows[i];
        proof {
            let r = rows@.subrange(0, i + 1);
            assert(r.drop_last() =~= rows@.subrange(0, i as int));
            assert(r.last() == row);
        }
        if row.config_id != 0 && row.trades > 0 && row.avg_pnl_finite {
            let ghost prefix = sorted@;
            let m = sorted.len();
            sorted.push(row);
            let mut j: usize = m;
            while j > 0 && reference_compare_after(&sorted[j - 1], &sorted[j])
                invariant
                    sorted@.len() == m + 1,
                    prefix.len() == m,
                    j <= m,
                    sorted@ == prefix.subrange(0, j as int) + seq![row] + prefix.subrange(j as int, m as int),
                    forall|k: int| j <= k < m ==> reference_order(#[trigger] prefix[k], row) > 0,
                decreases j,
            {
                let ghost before = sorted@;
                let a = sorted[j - 1];
                let b = sorted[j];
                sorted.set(j - 1, b);
                sorted.set(j, a);
                proof {
                    assert(before[j - 1] == prefix[j - 1]);
                    assert(sorted@ =~= prefix.subrange(0, j - 1) + seq![row] + prefix.subrange(j - 1, m as int));
                }
                j = j - 1;
            }
            proof {
                lemma_insert_reference_split(prefix, row, j as int);
                let p = prefix.subrange(0, j as int);
                if j > 0 {
                    assert(sorted@[j - 1] == p.last());
                    assert(p.drop_last() =~= prefix.subrange(0, j - 1));
                    assert(insert_reference(p, row) == p.push(row));
                } else {
                    assert(p =~= Seq::<ScoutReferenceRow>::empty());
                }
                assert(sorted@ =~= insert_reference(p, row) + prefix.subrange(j as int, m as int));
            }
        }
        i = i + 1;
    }
    proof {
        assert(rows@.subrange(0, n as int) =~= rows@);
    }
    let take: usize = if (sorted.len() as u64) < max_refs { sorted.len() } else { max_refs as usize };
    let mut ids: Vec<u64> = Vec::new();
    let mut k: usize = 0;
    while k < take
        invariant
            take <= sorted@.len(),
            take == (if sorted@.len() < max_refs { sorted@.len() as int } else { max_refs as int }),
            k <= take,
            ids@ == sorted@.subrange(0, k as int).map_values(|r: ScoutReferenceRow| r.config_id as u64),
        decreases take - k,
    {
        ids.push(sorted[k].config_id as u64);
        proof {
            assert(ids@ =~= sorted@.subrange(0, k + 1).map_values(|r: ScoutReferenceRow| r.config_id as u64));
        }
        k = k + 1;
    }
    ids
}

/// Number of usable reference rows.
pub open spec fn count_valid_references(rows: Seq<ScoutReferenceRow>) -> nat
    decreases rows.len(),
{
    if rows.len() == 0 { 0 } else { count_valid_references(rows.drop_last()) + if reference_valid(rows.last()) { 1nat } else { 0nat } }
}

/// Number of usable reference rows.
pub fn count_valid_reference_rows(rows: &[ScoutReferenceRow]) -> (r: usize)
    ensures
        r == count_valid_references(rows@),
{
    let n = rows.len();
    let mut c: usize = 0;
    let mut i: usize = 0;
    while i < n
        invariant
            n == rows@.len(),
            i <= n,
            c <= i,
            c == count_valid_references(rows@.subrange(0, i as int)),
        decreases n - i,
    {
        proof {
            let r = rows@.subrange(0, i + 1);
            assert(r.drop_last() =~= rows@.subrange(0, i as int));
            assert(r.last() == rows@[i as int]);
        }
        if rows[i].config_id != 0 && rows[i].trades > 0 && rows[i].avg_pnl_finite {
            c = c + 1;
        }
        i = i + 1;
    }
    proof {
        assert(rows@.subrange(0, n as int) =~= rows@);
    }
    c
}

/// What reading the scout references file gave: no file, a read error, a
/// parse error (each with the error's text), or the parsed rows.
#[derive(Debug, Clone, PartialEq, Eq)]
pub enum ReferencesRead {
    Missing,
    Unreadable(String),
    Unparsable(String),
    Rows(Vec<ScoutReferenceRow>),
}

/// Why a phase cannot start, if it cannot (every such refusal is a bad
/// request): see [`validate_phase_prerequisites`].
pub open spec fn prerequisites_refusal(phase: Seq<char>, refs_path: Seq<char>, refs: ReferencesRead) -> Option<Seq<char>> {
    if phase != "forward"@ {
        None
    } else {
        match refs {
            ReferencesRead::Missing => Some("forward requires "@ + refs_path + " (run scout first)"@),
            ReferencesRead::Unreadable(e) => Some("forward requires readable "@ + refs_path + " (error: "@ + e@ + ")"@),
            ReferencesRead::Unparsable(e) => Some("forward requires valid JSON list in "@ + refs_path + " (error: "@ + e@ + ")"@),
            ReferencesRead::Rows(rows) => if count_valid_references(rows@) == 0 {
                Some("forward requires valid reference rows in "@ + refs_path + " (run scout and get references)"@)
            } else {
                None
            },
        }
    }
}

/// Checks that a phase can start: a forward run needs the scout references
/// file at `refs_path`, readable, parsing as a list, with at least one usable
/// row; every refusal is a bad request. Other phases need nothing.
pub fn validate_phase_prerequisites(phase: &str, refs_path: &str, refs: &ReferencesRead) -> (r: Result<(), RunnerError>)
    ensures
        match prerequisites_refusal(phase@, refs_path@, *refs) {
            Some(m) => r is Err && r->Err_0.kind == RunnerErrorKind::BadRequest && r->Err_0.message@ == m,
            None => r is Ok,
        },
        phase@ != "forward"@ ==> r is Ok,
        phase@ == "forward"@ ==> match *refs {
            ReferencesRead::Missing => r is Err && r->Err_0.kind == RunnerErrorKind::BadRequest
                && r->Err_0.message@ == "forward requires "@ + refs_path@ + " (run scout first)"@,
            ReferencesRead::Unreadable(e) => r is Err && r->Err_0.kind == RunnerErrorKind::BadRequest
                && r->Err_0.message@ == "forward requires readable "@ + refs_path@ + " (error: "@ + e@ + ")"@,
            ReferencesRead::Unparsable(e) => r is Err && r->Err_0.kind == RunnerErrorKind::BadRequest
                && r->Err_0.message@ == "forward requires valid JSON list in "@ + refs_path@ + " (error: "@ + e@ + ")"@,
            ReferencesRead::Rows(rows) => if count_valid_references(rows@) == 0 {
                r is Err && r->Err_0.kind == RunnerErrorKind::BadRequest
                    && r->Err_0.message@ == "forward requires valid reference rows in "@ + refs_path@ + " (run scout and get references)"@
            } else {
                r is Ok
            },
        },
{
    if !str_equals(phase, "forward") {
        return Ok(());
    }
    match refs {
        ReferencesRead::Missing => {
            let m = concat_str("forward requires ", refs_path);
            let m = concat_str(m.as_str(), " (run scout first)");
            Err(RunnerError::bad_request(m))
        },
        ReferencesRead::Unreadable(e) => {
            let m = concat_str("forward requires readable ", refs_path);
            let m = concat_str(m.as_str(), " (error: ");
            let m = concat_str(m.as_str(), e.as_str());
            let m = concat_str(m.as_str(), ")");
            Err(RunnerError::bad_request(m))
        },
        ReferencesRead::Unparsable(e) => {
            let m = concat_str("forward requires valid JSON list in ", refs_path);
            let m = concat_str(m.as_str(), " (error: ");
            let m = concat_str(m.as_str(), e.as_str());
            let m = concat_str(m.as_str(), ")");
            Err(RunnerError::bad_request(m))
        },
        ReferencesRead::Rows(rows) => {
            if count_valid_reference_rows(rows.as_slice()) == 0 {
                let m = concat_str("forward requires valid reference rows in ", refs_path);
                let m = concat_str(m.as_str(), " (run scout and get references)");
                Err(RunnerError::bad_request(m))
            } else {
                Ok(())
            }
        },
    }
}

/// The acknowledgement of a queued trial batch.
#[derive(Debug, Clone, PartialEq, Eq)]
pub struct TrialAck {
    pub run_id: String,
    pub status: String,
    pub error: Option<String>,
    pub config_count: Option<usize>,
    pub drained_trades: Option<usize>,
}

/// Checks an acknowledgement: it must be for the expected run (else an
/// internal error) and have status `ok` (else a bad request naming its error).
pub fn check_trial_ack(ack: &TrialAck, expected_run_id: &str) -> (r: Result<(), RunnerError>)
    ensures
        ack.run_id@ != expected_run_id@ ==> r is Err && r->Err_0.kind == RunnerErrorKind::Internal
            && r->Err_0.message@ == "ack run_id mismatch: expected "@ + expected_run_id@ + ", got "@ + ack.run_id@,
        ack.run_id@ == expected_run_id@ && ack.status@ != "ok"@ ==> r is Err && r->Err_0.kind == RunnerErrorKind::BadRequest
            && r->Err_0.message@ == "forward batch rejected: "@ + (match ack.error { Some(e) => e@, None => "unknown error"@ }),
        ack.run_id@ == expected_run_id@ && ack.status@ == "ok"@ ==> r is Ok,
{
    if !str_equals(ack.run_id.as_str(), expected_run_id) {
        let m = concat_str("ack run_id mismatch: expected ", expected_run_id);
        let m = concat_str(m.as_str(), ", got ");
        let m = concat_str(m.as_str(), ack.run_id.as_str());
        return Err(RunnerError::internal(m));
    }
    if !str_equals(ack.status.as_str(), "ok") {
        let m = match &ack.error {
            Some(e) => concat_str("forward batch rejected: ", e.as_str()),
            None => concat_str("forward batch rejected: ", "unknown error"),
        };
        return Err(RunnerError::bad_request(m));
    }
    Ok(())
}

/// State of a runner job.
#[derive(Debug, Clone, Copy, PartialEq, Eq, Structural)]
pub enum RunnerJobState {
    Running,
    Success,
    Failed,
    Stopped,
}

/// One runner log line.
#[derive(Debug, PartialEq, Eq)]
pub struct RunnerLogEntry {
    pub ts_ms: i64,
    pub stream: String,
    pub line: String,
}

impl Clone for RunnerLogEntry {
    fn clone(&self) -> (r: Self)
        ensures
            r == *self,
    {
        RunnerLogEntry { ts_ms: self.ts_ms, stream: self.stream.clone(), line: self.line.clone() }
    }
}

/// A runner job as reported.
#[derive(Debug, PartialEq, Eq)]
pub struct RunnerJobView {
    pub job_id: u64,
    pub phase: String,
    pub command: String,
    pub started_at_ms: i64,
    pub finished_at_ms: Option<i64>,
    pub state: RunnerJobState,
    pub exit_code: Option<i32>,
    pub error: Option<String>,
}

fn clone_opt_string(s: &Option<String>) -> (r: Option<String>)
    ensures
        r == *s,
{
    match s {
        Some(x) => Some(x.clone()),
        None => None,
    }
}

impl Clone for RunnerJobView {
    fn clone(&self) -> (r: Self)
        ensures
            r == *self,
    {
        RunnerJobView {
            job_id: self.job_id,
            phase: self.phase.clone(),
            command: self.command.clone(),
            started_at_ms: self.started_at_ms,
            finished_at_ms: self.finished_at_ms,
            state: self.state,
            exit_code: self.exit_code,
            error: clone_opt_string(&self.error),
        }
    }
}

/// Runner status as reported.
#[derive(Debug, Clone, PartialEq, Eq)]
pub struct RunnerStatusResponse {
    pub running: bool,
    pub active_job: Option<RunnerJobView>,
    pub recent_jobs: Vec<RunnerJobView>,
    pub logs: Vec<RunnerLogEntry>,
}

/// Log lines kept by the runner.
pub const RUNNER_MAX_LOGS: usize = 500;
/// Finished jobs kept by the runner.
pub const RUNNER_MAX_HISTORY: usize = 20;
/// Log lines reported when no tail is asked for.
pub const RUNNER_DEFAULT_LOG_TAIL: usize = 200;

/// Jobs and logs of the runner.
#[derive(Debug)]
pub struct RunnerInner {
    pub next_job_id: u64,
    pub active_job: Option<RunnerJobView>,
    pub history: VecDeque<RunnerJobView>,
    pub logs: VecDeque<RunnerLogEntry>,
}

/// The last `max` elements of `s` (all of them when there are fewer).
pub open spec fn keep_last<T>(s: Seq<T>, max: nat) -> Seq<T> {
    if s.len() > max { s.subrange(s.len() - max, s.len() as int) } else { s }
}

/// Whether the active job is running.
pub open spec fn job_running(active: Option<RunnerJobView>) -> bool {
    match active {
        Some(j) => j.state == RunnerJobState::Running,
        None => false,
    }
}

/// The line logged when a job finishes.
pub open spec fn finish_summary(state: RunnerJobState, exit_code: Option<i32>, error: Option<String>) -> Seq<char> {
    match (state, exit_code, error) {
        (RunnerJobState::Success, Some(c), _) => "completed: exit_code="@ + signed_decimal(c as int),
        (RunnerJobState::Stopped, Some(c), _) => "stopped: exit_code="@ + signed_decimal(c as int),
        (RunnerJobState::Failed, Some(c), Some(e)) => "failed: exit_code="@ + signed_decimal(c as int) + " error="@ + e@,
        (RunnerJobState::Failed, _, Some(e)) => "failed: "@ + e@,
        _ => "job finished"@,
    }
}

fn drop_front<T>(q: &mut VecDeque<T>, max: usize)
    ensures
        final(q)@ == keep_last(old(q)@, max as nat),
{
    let ghost start = q@;
    let ghost mut k: int = 0;
    while q.len() > max
        invariant
            0 <= k <= start.len(),
            q@ == start.subrange(k, start.len() as int),
            k > 0 ==> start.len() - k >= max,
        decreases q@.len(),
    {
        q.pop_front();
        proof {
            k = k + 1;
            assert(q@ =~= start.subrange(k, start.len() as int));
        }
    }
    proof {
        if k == 0 {
            assert(q@ =~= start);
        } else {
            assert(start.len() - k == max);
        }
    }
}

impl RunnerInner {
    /// A runner with no jobs; the first job gets id 1.
    pub fn new() -> (r: Self)
        ensures
            r.next_job_id == 1,
            r.active_job is None,
            r.history@.len() == 0,
            r.logs@.len() == 0,
    {
        RunnerInner { next_job_id: 1, active_job: None, history: VecDeque::new(), logs: VecDeque::new() }
    }

    /// Whether a job is running.
    pub fn is_running(&self) -> (r: bool)
        ensures
            r == job_running(self.active_job),
    {
        match &self.active_job {
            Some(j) => j.state == RunnerJobState::Running,
            None => false,
        }
    }

    /// Starts a job: refused with a conflict while one runs; otherwise the job
    /// gets the next id, becomes the running job, and the log restarts with
    /// a `starting` line.
    pub fn begin_job(&mut self, phase: String, command: String, now_ms: i64) -> (r: Result<u64, RunnerError>)
        ensures
            job_running(old(self).active_job) ==> {
                &&& r is Err
                &&& r->Err_0.kind == RunnerErrorKind::Conflict
                &&& r->Err_0.message@ == "runner job already active"@
                &&& *final(self) == *old(self)
            },
            !job_running(old(self).active_job) ==> {
                &&& r == Ok::<u64, RunnerError>(old(self).next_job_id)
                &&& final(self).next_job_id == (if old(self).next_job_id == u64::MAX { u64::MAX } else { (old(self).next_job_id + 1) as u64 })
                &&& final(self).active_job is Some
                &&& final(self).active_job->0.job_id == old(self).next_job_id
                &&& final(self).active_job->0.phase@ == phase@
                &&& final(self).active_job->0.command@ == command@
                &&& final(self).active_job->0.started_at_ms == now_ms
                &&& final(self).active_job->0.finished_at_ms is None
                &&& final(self).active_job->0.state == RunnerJobState::Running
                &&& final(self).active_job->0.exit_code is None
                &&& final(self).active_job->0.error is None
                &&& final(self).history@ == old(self).history@
                &&& final(self).logs@.len() == 1
                &&& final(self).logs@[0].ts_ms == now_ms
                &&& final(self).logs@[0].stream@ == "sys"@
                &&& final(self).logs@[0].line@ == "starting: "@ + command@
            },
    {
        if self.is_running() {
            return Err(RunnerError::conflict("runner job already active".to_owned()));
        }
        let job_id = self.next_job_id;
        self.next_job_id = if self.next_job_id == u64::MAX { u64::MAX } else { self.next_job_id + 1 };
        let line = concat_str("starting: ", command.as_str());
        self.active_job = Some(RunnerJobView {
            job_id,
            phase,
            command,
            started_at_ms: now_ms,
            finished_at_ms: None,
            state: RunnerJobState::Running,
            exit_code: None,
            error: None,
        });
        self.logs.clear();
        self.logs.push_back(RunnerLogEntry { ts_ms: now_ms, stream: "sys".to_owned(), line });
        Ok(job_id)
    }

    /// Appends a log line of job `job_id`, when it is the active job, keeping
    /// the last `max_logs` lines.
    pub fn append_log(&mut self, job_id: u64, ts_ms: i64, stream: String, line: String, max_logs: usize)
        ensures
            final(self).next_job_id == old(self).next_job_id,
            final(self).active_job == old(self).active_job,
            final(self).history@ == old(self).history@,
            (match old(self).active_job { Some(j) => j.job_id == job_id, None => false }) ==> {
                &&& final(self).logs@.len() == keep_last(old(self).logs@.push(RunnerLogEntry { ts_ms, stream, line }), max_logs as nat).len()
                &&& final(self).logs@ == keep_last(old(self).logs@.push(RunnerLogEntry { ts_ms, stream, line }), max_logs as nat)
            },
            !(match old(self).active_job { Some(j) => j.job_id == job_id, None => false }) ==> final(self).logs@ == old(self).logs@,
    {
        let matches_active = match &self.active_job {
            Some(j) => j.job_id == job_id,
            None => false,
        };
        if !matches_active {
            return;
        }
        self.logs.push_back(RunnerLogEntry { ts_ms, stream, line });
        drop_front(&mut self.logs, max_logs);
    }

    /// Finishes job `job_id` when it is the active job: records its state,
    /// exit code, finish time and error, logs a summary (see
    /// [`finish_summary`]), moves a job that no longer runs into the history
    /// (keeping the last `max_history`), and keeps the last `max_logs` lines.
    pub fn finish_job(&mut self, job_id: u64, state: RunnerJobState, exit_code: Option<i32>, error: Option<String>,
        now_ms: i64, max_history: usize, max_logs: usize)
        ensures
            final(self).next_job_id == old(self).next_job_id,
            !(match old(self).active_job { Some(j) => j.job_id == job_id, None => false }) ==> *final(self) == *old(self),
            (match old(self).active_job { Some(j) => j.job_id == job_id, None => false }) ==> {
                let done = RunnerJobView {
                    state,
                    exit_code,
                    finished_at_ms: Some(now_ms),
                    error,
                    ..old(self).active_job->0
                };
                &&& final(self).active_job == Some(done)
                &&& final(self).history@ == (if state != RunnerJobState::Running {
                        keep_last(old(self).history@.push(done), max_history as nat)
                    } else {
                        old(self).history@
                    })
                &&& exists|e: RunnerLogEntry| #![trigger old(self).logs@.push(e)] e.ts_ms == now_ms && e.stream@ == "sys"@
                    && e.line@ == finish_summary(state, exit_code, error)
                    && final(self).logs@ == keep_last(old(self).logs@.push(e), max_logs as nat)
            },
    {
        let matches_active = match &self.active_job {
            Some(j) => j.job_id == job_id,
            None => false,
        };
        if !matches_active {
            return;
        }
        let summary = match (state, exit_code, &error) {
            (RunnerJobState::Success, Some(code), _) => {
                let d = i32_to_decimal(code);
                concat_str("completed: exit_code=", d.as_str())
            },
            (RunnerJobState::Stopped, Some(code), _) => {
                let d = i32_to_decimal(code);
                concat_str("stopped: exit_code=", d.as_str())
            },
            (RunnerJobState::Failed, Some(code), Some(err)) => {
                let d = i32_to_decimal(code);
                let m = concat_str("failed: exit_code=", d.as_str());
                let m = concat_str(m.as_str(), " error=");
                concat_str(m.as_str(), err.as_str())
            },
            (RunnerJobState::Failed, _, Some(err)) => concat_str("failed: ", err.as_str()),
            _ => "job finished".to_owned(),
        };
        let ghost summary_view = summary@;
        proof {
            assert(summary_view == finish_summary(state, exit_code, error));
        }
        let old_job = self.active_job.clone().unwrap();
        let done = RunnerJobView {
            job_id: old_job.job_id,
            phase: old_job.phase,
            command: old_job.command,
            started_at_ms: old_job.started_at_ms,
            finished_at_ms: Some(now_ms),
            state,
            exit_code,
            error,
        };
        let entry = RunnerLogEntry { ts_ms: now_ms, stream: "sys".to_owned(), line: summary };
        let ghost entry_g = entry;
        let ghost logs_before = self.logs@;
        self.logs.push_back(entry);
        if state != RunnerJobState::Running {
            self.history.push_back(done.clone());
            drop_front(&mut self.history, max_history);
        }
        self.active_job = Some(done);
        drop_front(&mut self.logs, max_logs);
        proof {
            assert(logs_before == old(self).logs@);
            assert(self.logs@ == keep_last(old(self).logs@.push(entry_g), max_logs as nat));
            assert(entry_g.line@ == finish_summary(state, exit_code, error));
        }
    }

    /// Status with the last `tail` log lines ([`RUNNER_DEFAULT_LOG_TAIL`]
    /// when `tail` is 0) and the finished jobs, most recent first.
    pub fn status(&self, tail: usize) -> (r: RunnerStatusResponse)
        ensures
            r.running == job_running(self.active_job),
            r.active_job == self.active_job,
            r.logs@ == keep_last(self.logs@, (if tail == 0 { RUNNER_DEFAULT_LOG_TAIL } else { tail }) as nat),
            r.recent_jobs@ == self.history@.reverse(),
    {
        let limit: usize = if tail == 0 { RUNNER_DEFAULT_LOG_TAIL } else { tail };
        let n = self.logs.len();
        let start: usize = if n > limit { n - limit } else { 0 };
        let mut logs: Vec<RunnerLogEntry> = Vec::new();
        let mut i: usize = start;
        while i < n
            invariant
                n == self.logs@.len(),
                start <= i <= n,
                logs@ == self.logs@.subrange(start as int, i as int),
            decreases n - i,
        {
            logs.push(self.logs[i].clone());
            proof {
                assert(logs@ =~= self.logs@.subrange(start as int, i + 1));
            }
            i = i + 1;
        }
        proof {
            if n <= limit {
                assert(self.logs@.subrange(0, n as int) =~= self.logs@);
            }
        }
        let h = self.history.len();
        let mut recent: Vec<RunnerJobView> = Vec::new();
        let mut k: usize = h;
        while k > 0
            invariant
                h == self.history@.len(),
                k <= h,
                recent@ == self.history@.subrange(k as int, h as int).reverse(),
            decreases k,
        {
            recent.push(self.history[k - 1].clone());
            proof {
                assert(recent@ =~= self.history@.subrange(k - 1, h as int).reverse());
            }
            k = k - 1;
        }
        proof {
            assert(self.history@.subrange(0, h as int) =~= self.history@);
        }
        RunnerStatusResponse {
            running: self.is_running(),
            active_job: self.active_job.clone(),
            recent_jobs: recent,
            logs,
        }
    }
}

/// Defaults of one runner phase as shown to the UI (a missing value does not
/// apply to the phase).
#[derive(Debug, Clone, PartialEq, Eq)]
pub struct RunnerPhaseDefaults {
    pub name: String,
    pub duration: Option<u64>,
    pub cycles: Option<u64>,
    pub max_budget: Option<u64>,
    pub grace_period: Option<u64>,
    pub report_interval: Option<u64>,
    pub max_refs: Option<u64>,
    pub max_configs: Option<u64>,
    pub top_k: Option<u64>,
    pub min_trades: Option<u64>,
}

/// Phase defaults of the runner UI.
#[derive(Debug, Clone, PartialEq, Eq)]
pub struct RunnerUiConfig {
    pub phases: Vec<RunnerPhaseDefaults>,
}

/// The scout phase, then the forward phase, each with the defaults the
/// command builder uses.
pub fn runner_ui_config() -> (cfg: RunnerUiConfig)
    ensures
        cfg.phases@.len() == 2,
        cfg.phases@[0].name@ == "scout"@,
        cfg.phases@[0].duration == Some(DEFAULT_SCOUT_DURATION_S),
        cfg.phases@[0].cycles == Some(DEFAULT_SCOUT_CYCLES),
        cfg.phases@[0].max_budget is None && cfg.phases@[0].grace_period is None
            && cfg.phases@[0].report_interval is None && cfg.phases@[0].max_refs is None
            && cfg.phases@[0].max_configs is None && cfg.phases@[0].top_k is None
            && cfg.phases@[0].min_trades is None,
        cfg.phases@[1].name@ == "forward"@,
        cfg.phases@[1].duration is None && cfg.phases@[1].cycles is None,
        cfg.phases@[1].max_budget == Some(DEFAULT_FORWARD_MAX_BUDGET_S),
        cfg.phases@[1].grace_period == Some(DEFAULT_FORWARD_GRACE_PERIOD_S),
        cfg.phases@[1].report_interval == Some(DEFAULT_FORWARD_REPORT_INTERVAL_S),
        cfg.phases@[1].max_refs == Some(DEFAULT_FORWARD_MAX_REFS),
        cfg.phases@[1].max_configs == Some(DEFAULT_FORWARD_MAX_CONFIGS),
        cfg.phases@[1].top_k is None && cfg.phases@[1].min_trades is None,
{
    let mut phases: Vec<RunnerPhaseDefaults> = Vec::new();
    phases.push(RunnerPhaseDefaults {
        name: "scout".to_owned(),
        duration: Some(DEFAULT_SCOUT_DURATION_S),
        cycles: Some(DEFAULT_SCOUT_CYCLES),
        max_budget: None,
        grace_period: None,
        report_interval: None,
        max_refs: None,
        max_configs: None,
        top_k: None,
        min_trades: None,
    });
    phases.push(RunnerPhaseDefaults {
        name: "forward".to_owned(),
        duration: None,
        cycles: None,
        max_budget: Some(DEFAULT_FORWARD_MAX_BUDGET_S),
        grace_period: Some(DEFAULT_FORWARD_GRACE_PERIOD_S),
        report_interval: Some(DEFAULT_FORWARD_REPORT_INTERVAL_S),
        max_refs: Some(DEFAULT_FORWARD_MAX_REFS),
        max_configs: Some(DEFAULT_FORWARD_MAX_CONFIGS),
        top_k: None,
        min_trades: None,
    });
    RunnerUiConfig { phases }
}

/// Which forward run a request asks for, after trimming the requested id.
#[derive(Debug, Clone, PartialEq, Eq)]
pub enum ForwardRunRequest {
    /// No id (or a blank one): the latest forward run.
    Latest,
    /// A forward run by its id.
    Named(String),
    /// An id that does not start with `forward-`.
    Invalid,
}

/// `s` starts with `prefix`.
pub open spec fn has_prefix(s: Seq<char>, prefix: Seq<char>) -> bool {
    prefix.len() <= s.len() && s.subrange(0, prefix.len() as int) == prefix
}

fn starts_with_forward(s: &str) -> (r: bool)
    ensures
        r == has_prefix(s@, "forward-"@),
{
    let prefix = "forward-";
    proof {
        reveal_strlit("forward-");
    }
    let n = prefix.unicode_len();
    if s.unicode_len() < n {
        return false;
    }
    let mut i: usize = 0;
    while i < n
        invariant
            n == prefix@.len(),
            prefix@ == "forward-"@,
            n <= s@.len(),
            i <= n,
            forall|j: int| 0 <= j < i ==> s@[j] == prefix@[j],
        decreases n - i,
    {
        if s.get_char(i) != prefix.get_char(i) {
            proof {
                assert(s@.subrange(0, n as int)[i as int] != prefix@[i as int]);
            }
            return false;
        }
        i = i + 1;
    }
    proof {
        assert(s@.subrange(0, n as int) =~= prefix@);
    }
    true
}

/// Classifies a requested forward run id (see [`ForwardRunRequest`]).
pub fn classify_forward_run_request(requested: Option<&str>) -> (r: ForwardRunRequest)
    ensures
        match requested {
            None => r == ForwardRunRequest::Latest,
            Some(raw) => {
                let t = trimmed(raw@);
                if t.len() == 0 {
                    r == ForwardRunRequest::Latest
                } else if has_prefix(t, "forward-"@) {
                    r is Named && r->Named_0@ == t
                } else {
                    r == ForwardRunRequest::Invalid
                }
            },
        },
{
    match requested {
        None => ForwardRunRequest::Latest,
        Some(raw) => {
            let t = trim_str(raw);
            if t.unicode_len() == 0 {
                ForwardRunRequest::Latest
            } else if starts_with_forward(t) {
                ForwardRunRequest::Named(t.to_owned())
            } else {
                ForwardRunRequest::Invalid
            }
        },
    }
}

/// Arguments joined by single spaces.
pub open spec fn join_spaced(args: Seq<Seq<char>>) -> Seq<char>
    decreases args.len(),
{
    if args.len() == 0 {
        Seq::empty()
    } else if args.len() == 1 {
        args[0]
    } else {
        join_spaced(args.drop_last()) + " "@ + args.last()
    }
}

fn join_args(args: &Vec<String>) -> (r: String)
    ensures
        r@ == join_spaced(strings_view(args@)),
{
    let mut out = String::new();
    let mut i: usize = 0;
    while i < args.len()
        invariant
            i <= args@.len(),
            out@ == join_spaced(strings_view(args@.take(i as int))),
        decreases args.len() - i,
    {
        proof {
            assert(strings_view(args@.take(i + 1)).drop_last() =~= strings_view(args@.take(i as int)));
            assert(strings_view(args@.take(i + 1)).last() == args@[i as int]@);
        }
        if i == 0 {
            out = concat_str(out.as_str(), args[i].as_str());
            proof {
                assert(out@ =~= args@[0]@);
            }
        } else {
            let spaced = concat_str(out.as_str(), " ");
            out = concat_str(spaced.as_str(), args[i].as_str());
        }
        i = i + 1;
    }
    proof {
        assert(args@.take(i as int) =~= args@);
    }
    out
}

/// What starting a runner job will run: the normalised phase, the driver
/// command, the forward options (forward phase only) and the command line
/// shown for the job.
#[derive(Debug, Clone)]
pub struct RunnerStartPlan {
    pub phase: String,
    pub command: RunnerCommandSpec,
    pub forward: Option<ForwardPhaseOptions>,
    pub display: String,
}

/// Plans the start of a runner job from a request: an invalid request is a
/// bad request with the command builder's message; a forward job is shown as
/// the internal forward command, any other as the driver command line.
pub fn plan_runner_start(req: &RunnerStartRequest) -> (r: Result<RunnerStartPlan, RunnerError>)
    ensures
        match spec_runner_command(*req) {
            Err(m) => r is Err && r->Err_0.kind == RunnerErrorKind::BadRequest && r->Err_0.message@ == m,
            Ok(args) => r is Ok && planned(*req, args, r->Ok_0),
        },
{
    let phase = to_lowercase_str(trim_str(req.phase.as_str()));
    plan_phase_start(phase, req)
}

/// Plans the start of a runner job for a phase already trimmed and
/// lowercased, with the options of a request (see [`plan_runner_start`]).
pub fn plan_phase_start(phase: String, req: &RunnerStartRequest) -> (r: Result<RunnerStartPlan, RunnerError>)
    ensures
        match spec_phase_command(phase@, *req) {
            Err(m) => r is Err && r->Err_0.kind == RunnerErrorKind::BadRequest && r->Err_0.message@ == m,
            Ok(args) => r is Ok && planned_for(phase@, *req, args, r->Ok_0),
        },
{
    let command = match build_phase_command(phase.as_str(), req) {
        Ok(c) => c,
        Err(m) => return Err(RunnerError::bad_request(m)),
    };
    if str_equals(phase.as_str(), "forward") {
        proof {
            reveal_strlit("forward");
            reveal_strlit("scout");
            assert("forward"@ != "scout"@) by {
                assert("forward"@[0] != "scout"@[0]);
            }
        }
        let opts = match forward_phase_options(req) {
            Ok(o) => o,
            Err(e) => return Err(e),
        };
        let display = build_forward_display_command(&opts);
        Ok(RunnerStartPlan { phase, command, forward: Some(opts), display })
    } else {
        let joined = join_args(&command.args);
        let display = concat_str("python3 ", joined.as_str());
        Ok(RunnerStartPlan { phase, command, forward: None, display })
    }
}

/// Whether `plan` is what [`plan_runner_start`] plans for a request whose
/// driver command is `args`.
pub open spec fn planned(req: RunnerStartRequest, args: Seq<Seq<char>>, plan: RunnerStartPlan) -> bool {
    planned_for(request_phase(req), req, args, plan)
}

/// Whether `plan` is what [`plan_phase_start`] plans for `phase` and a request
/// whose driver command is `args`.
pub open spec fn planned_for(phase: Seq<char>, req: RunnerStartRequest, args: Seq<Seq<char>>, plan: RunnerStartPlan) -> bool {
    &&& plan.phase@ == phase
    &&& plan.command.program@ == "python3"@
    &&& strings_view(plan.command.args@) == args
    &&& if phase == "forward"@ {
            spec_forward_options(req) is Ok
            && plan.forward == Some(spec_forward_options(req)->Ok_0)
            && plan.display@ == forward_display(spec_forward_options(req)->Ok_0)
        } else {
            plan.forward is None && plan.display@ == "python3 "@ + join_spaced(args)
        }
}

/// Decides whether a runner job may start, checking in this order: the
/// request (a bad request), the driver directory in `workdir` (an internal
/// error), a running job (a conflict), then the phase's prerequisites on the
/// scout references at `refs_path` (a bad request). On success the job's
/// plan is returned.
pub fn start_decision(
    req: &RunnerStartRequest,
    workdir: &str,
    has_ray_driver: bool,
    runner: &RunnerInner,
    refs_path: &str,
    refs: &ReferencesRead,
) -> (r: Result<RunnerStartPlan, RunnerError>)
    ensures
        match spec_runner_command(*req) {
            Err(m) => r is Err && r->Err_0.kind == RunnerErrorKind::BadRequest && r->Err_0.message@ == m,
            Ok(args) => if !has_ray_driver {
                r is Err && r->Err_0.kind == RunnerErrorKind::Internal
                    && r->Err_0.message@ == "ray_driver directory not found in "@ + workdir@
            } else if job_running(runner.active_job) {
                r is Err && r->Err_0.kind == RunnerErrorKind::Conflict
                    && r->Err_0.message@ == "runner job already active"@
            } else {
                match prerequisites_refusal(request_phase(*req), refs_path@, *refs) {
                    Some(m) => r is Err && r->Err_0.kind == RunnerErrorKind::BadRequest && r->Err_0.message@ == m,
                    None => r is Ok && planned(*req, args, r->Ok_0),
                }
            },
        },
{
    let plan = match plan_runner_start(req) {
        Ok(p) => p,
        Err(e) => return Err(e),
    };
    if !has_ray_driver {
        return Err(RunnerError::internal(concat_str("ray_driver directory not found in ", workdir)));
    }
    if runner.is_running() {
        return Err(RunnerError::conflict(String::from_str("runner job already active")));
    }
    match validate_phase_prerequisites(plan.phase.as_str(), refs_path, refs) {
        Err(e) => Err(e),
        Ok(()) => Ok(plan),
    }
}

/// What came of running a driver process: it could not be spawned, it
/// exited (after a stop request or not, successfully or not, with its exit
/// code and its status as text), or waiting for it failed. Errors carry their
/// text.
#[derive(Debug, Clone, PartialEq, Eq)]
pub enum ProcessOutcome {
    SpawnFailed(String),
    Exited { stopped: bool, success: bool, exit_code: Option<i32>, status: String },
    WaitFailed(String),
}

/// How a driver job ends for a process outcome: the job state, exit code and
/// error of [`RunnerInner::finish_job`]. A stopped process ends the job as
/// stopped, a successful one as a success, any other as failed.
pub fn job_end_for_outcome(outcome: ProcessOutcome) -> (r: (RunnerJobState, Option<i32>, Option<String>))
    ensures
        match outcome {
            ProcessOutcome::SpawnFailed(e) => r.0 == RunnerJobState::Failed && r.1 is None
                && r.2 is Some && r.2->0@ == "spawn failed: "@ + e@,
            ProcessOutcome::Exited { stopped, success, exit_code, status } => r.1 == exit_code && if stopped {
                r.0 == RunnerJobState::Stopped && r.2 is None
            } else if success {
                r.0 == RunnerJobState::Success && r.2 is None
            } else {
                r.0 == RunnerJobState::Failed && r.2 is Some && r.2->0@ == "process exited with status "@ + status@
            },
            ProcessOutcome::WaitFailed(e) => r.0 == RunnerJobState::Failed && r.1 is None
                && r.2 is Some && r.2->0@ == "wait failed: "@ + e@,
        },
{
    match outcome {
        ProcessOutcome::SpawnFailed(e) => (RunnerJobState::Failed, None, Some(concat_str("spawn failed: ", e.as_str()))),
        ProcessOutcome::Exited { stopped, success, exit_code, status } => {
            if stopped {
                (RunnerJobState::Stopped, exit_code, None)
            } else if success {
                (RunnerJobState::Success, exit_code, None)
            } else {
                (RunnerJobState::Failed, exit_code, Some(concat_str("process exited with status ", status.as_str())))
            }
        },
        ProcessOutcome::WaitFailed(e) => (RunnerJobState::Failed, None, Some(concat_str("wait failed: ", e.as_str()))),
    }
}

/// A directory the runner may work in: a base directory, or its
/// `hft-lead-lag` subdirectory.
#[derive(Debug, Clone, PartialEq, Eq)]
pub struct WorkdirCandidate {
    pub base: String,
    pub in_project_subdir: bool,
}

/// View of a workdir candidate.
pub open spec fn candidate_view(c: WorkdirCandidate) -> (Seq<char>, bool) {
    (c.base@, c.in_project_subdir)
}

/// Each directory, then its `hft-lead-lag` subdirectory, in order.
pub open spec fn with_subdirs(dirs: Seq<Seq<char>>) -> Seq<(Seq<char>, bool)>
    decreases dirs.len(),
{
    if dirs.len() == 0 {
        Seq::empty()
    } else {
        with_subdirs(dirs.drop_last()).push((dirs.last(), false)).push((dirs.last(), true))
    }
}

/// The order in which the runner tries working directories: the configured
/// root (when given and not empty), then the current directory and its
/// project subdirectory, then each ancestor of the executable (nearest first)
/// and its project subdirectory.
pub open spec fn spec_workdir_candidates(root: Option<Seq<char>>, cwd: Option<Seq<char>>, exe_ancestors: Seq<Seq<char>>)
    -> Seq<(Seq<char>, bool)> {
    let r = match root {
        Some(p) => if p.len() > 0 { seq![(p, false)] } else { Seq::empty() },
        None => Seq::empty(),
    };
    let c = match cwd {
        Some(d) => seq![(d, false), (d, true)],
        None => Seq::empty(),
    };
    r + c + with_subdirs(exe_ancestors)
}

/// The working directories the runner tries, in order (see
/// [`spec_workdir_candidates`]).
pub fn workdir_candidates(root: Option<String>, cwd: Option<String>, exe_ancestors: &Vec<String>) -> (r: Vec<WorkdirCandidate>)
    ensures
        r@.map_values(|c: WorkdirCandidate| candidate_view(c))
            == spec_workdir_candidates(opt_string_view(root), opt_string_view(cwd), strings_view(exe_ancestors@)),
{
    let mut out: Vec<WorkdirCandidate> = Vec::new();
    let ghost rv = opt_string_view(root);
    let ghost cv = opt_string_view(cwd);
    match root {
        Some(p) => {
            if !p.as_str().is_empty() {
                out.push(WorkdirCandidate { base: p, in_project_subdir: false });
            }
        },
        None => {},
    }
    match cwd {
        Some(d) => {
            let d2 = d.clone();
            out.push(WorkdirCandidate { base: d, in_project_subdir: false });
            out.push(WorkdirCandidate { base: d2, in_project_subdir: true });
        },
        None => {},
    }
    let ghost head = out@.map_values(|c: WorkdirCandidate| candidate_view(c));
    proof {
        let r = match rv {
            Some(p) => if p.len() > 0 { seq![(p, false)] } else { Seq::<(Seq<char>, bool)>::empty() },
            None => Seq::<(Seq<char>, bool)>::empty(),
        };
        let c = match cv {
            Some(d) => seq![(d, false), (d, true)],
            None => Seq::<(Seq<char>, bool)>::empty(),
        };
        assert(head =~= r + c);
    }
    let ghost anc = strings_view(exe_ancestors@);
    let mut i: usize = 0;
    while i < exe_ancestors.len()
        invariant
            i <= exe_ancestors@.len(),
            anc == strings_view(exe_ancestors@),
            out@.map_values(|c: WorkdirCandidate| candidate_view(c)) == head + with_subdirs(anc.subrange(0, i as int)),
        decreases exe_ancestors@.len() - i,
    {
        let a = exe_ancestors[i].clone();
        let a2 = exe_ancestors[i].clone();
        let ghost before = out@;
        let c1 = WorkdirCandidate { base: a, in_project_subdir: false };
        let c2 = WorkdirCandidate { base: a2, in_project_subdir: true };
        proof {
            assert(candidate_view(c1) == (anc[i as int], false));
            assert(candidate_view(c2) == (anc[i as int], true));
        }
        out.push(c1);
        out.push(c2);
        proof {
            assert(out@ == before.push(c1).push(c2));
            assert(out@.map_values(|c: WorkdirCandidate| candidate_view(c))
                =~= before.map_values(|c: WorkdirCandidate| candidate_view(c)).push(candidate_view(c1)).push(candidate_view(c2)));
            let sub = anc.subrange(0, i + 1);
            assert(sub.drop_last() =~= anc.subrange(0, i as int));
            assert(sub.last() == exe_ancestors@[i as int]@);
            assert(out@.map_values(|c: WorkdirCandidate| candidate_view(c)) =~= head + with_subdirs(sub));
        }
        i = i + 1;
    }
    proof {
        assert(anc.subrange(0, exe_ancestors@.len() as int) =~= anc);
    }
    out
}

/// Views of an optional string.
pub open spec fn opt_string_view(o: Option<String>) -> Option<Seq<char>> {
    match o {
        Some(s) => Some(s@),
        None => None,
    }
}

/// Position of the first candidate that holds the driver directory, if any.
pub fn first_with_driver(has_driver: &[bool]) -> (r: Option<usize>)
    ensures
        match r {
            Some(i) => i < has_driver@.len() && has_driver@[i as int]
                && forall|j: int| 0 <= j < i ==> !has_driver@[j],
            None => forall|j: int| 0 <= j < has_driver@.len() ==> !has_driver@[j],
        },
{
    let mut i: usize = 0;
    while i < has_driver.len()
        invariant
            i <= has_driver@.len(),
            forall|j: int| 0 <= j < i ==> !has_driver@[j],
        decreases has_driver@.len() - i,
    {
        if has_driver[i] {
            return Some(i);
        }
        i = i + 1;
    }
    None
}

} // verus!

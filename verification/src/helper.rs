//! The privileged helper's decisions: which command a request names, and,
//! for each command, a job that says step by step what to do next (check a
//! file, run `launchctl`, wait, write or remove the plist, set or clear DNS
//! servers) and what to reply. The caller does the work and reports back.

use vstd::prelude::*;
use crate::json::{json_get, json_text, parse_json, serde_json_value, text_field, JsonValue};
use crate::gateway::{dns_servers_for, gateway_servers, TunGateways};
use crate::launchd::{
    label_of, launchctl_pid, plist_content, plist_label, plist_path, plist_path_of, plist_xml,
    run_dir_ok, service_run_dir, service_status, service_target, target_of, ServiceState,
};
use crate::text::{concat_text, opt_text, owned, text_eq, texts, trim_spaces};

verus! {

/// How many times a start looks for the running service, 250 ms apart.
pub const START_POLLS: u32 = 20;

/// How many times a stop looks for the stopped service, 500 ms apart.
pub const STOP_POLLS: u32 = 30;

/// What the helper reads of a request: each field when it is a string.
pub struct HelperRequest {
    pub cmd: Option<String>,
    pub service: Option<String>,
    pub config_path: Option<String>,
    pub exe_path: Option<String>,
    pub singbox_path: Option<String>,
    pub working_dir: Option<String>,
    pub error_log: Option<String>,
}

pub open spec fn text_or(s: Option<String>, d: Seq<char>) -> Seq<char> {
    match s {
        Some(t) => t@,
        None => d,
    }
}

fn text_or_exec(s: &Option<String>, d: &str) -> (r: String)
    ensures
        r@ == text_or(*s, d@),
{
    match s {
        Some(t) => t.clone(),
        None => owned(d),
    }
}

/// A command to the helper.
pub enum HelperCommand {
    Ping,
    Status { service: String },
    Start { service: String, config_path: String },
    Stop { service: String },
    Restart { service: String, config_path: String },
    Install {
        service: String,
        exe_path: String,
        singbox_path: String,
        config_path: String,
        working_dir: String,
        error_log: String,
    },
    Uninstall { service: String },
    ClearProxy,
    Unknown { cmd: String },
}

/// Whether `r` is the command that `req` names: `cmd` decides (missing is
/// empty), the service defaults to `sing-box`, other fields to empty.
pub open spec fn dispatched(req: HelperRequest, r: HelperCommand) -> bool {
    let c = text_or(req.cmd, ""@);
    let s = text_or(req.service, "sing-box"@);
    let cfg = text_or(req.config_path, ""@);
    if c == "ping"@ {
        r is Ping
    } else if c == "status"@ {
        r matches HelperCommand::Status { service } && service@ == s
    } else if c == "start"@ {
        r matches HelperCommand::Start { service, config_path } && service@ == s && config_path@
            == cfg
    } else if c == "stop"@ {
        r matches HelperCommand::Stop { service } && service@ == s
    } else if c == "restart"@ {
        r matches HelperCommand::Restart { service, config_path } && service@ == s
            && config_path@ == cfg
    } else if c == "install"@ {
        r matches HelperCommand::Install {
            service,
            exe_path,
            singbox_path,
            config_path,
            working_dir,
            error_log,
        } && service@ == s && exe_path@ == text_or(req.exe_path, ""@) && singbox_path@ == text_or(
            req.singbox_path,
            ""@,
        ) && config_path@ == cfg && working_dir@ == text_or(req.working_dir, ""@) && error_log@
            == text_or(req.error_log, ""@)
    } else if c == "uninstall"@ {
        r matches HelperCommand::Uninstall { service } && service@ == s
    } else if c == "clear_proxy"@ {
        r is ClearProxy
    } else {
        r matches HelperCommand::Unknown { cmd } && cmd@ == c
    }
}

/// The request a JSON value makes: each field is the object's string member
/// of that name.
pub open spec fn request_spec(v: JsonValue, r: HelperRequest) -> bool {
    &&& opt_text(r.cmd) == json_text(json_get(v, "cmd"@))
    &&& opt_text(r.service) == json_text(json_get(v, "service"@))
    &&& opt_text(r.config_path) == json_text(json_get(v, "config_path"@))
    &&& opt_text(r.exe_path) == json_text(json_get(v, "exe_path"@))
    &&& opt_text(r.singbox_path) == json_text(json_get(v, "singbox_path"@))
    &&& opt_text(r.working_dir) == json_text(json_get(v, "working_dir"@))
    &&& opt_text(r.error_log) == json_text(json_get(v, "error_log"@))
}

/// The request a JSON value makes.
pub fn request_of(v: &JsonValue) -> (r: HelperRequest)
    ensures
        request_spec(*v, r),
{
    HelperRequest {
        cmd: text_field(v, "cmd"),
        service: text_field(v, "service"),
        config_path: text_field(v, "config_path"),
        exe_path: text_field(v, "exe_path"),
        singbox_path: text_field(v, "singbox_path"),
        working_dir: text_field(v, "working_dir"),
        error_log: text_field(v, "error_log"),
    }
}

/// The request one line of the socket makes, or serde_json's error text
/// when the line is not JSON.
pub fn request_of_line(line: &str) -> (r: Result<HelperRequest, String>)
    ensures
        match serde_json_value(line@) {
            Ok(v) => r matches Ok(req) && request_spec(v, req),
            Err(m) => r matches Err(e) && e@ == m,
        },
{
    match parse_json(line) {
        Ok(v) => Ok(request_of(&v)),
        Err(e) => Err(e),
    }
}

/// The command a request names.
pub fn dispatch(req: &HelperRequest) -> (r: HelperCommand)
    ensures
        dispatched(*req, r),
{
    let c = text_or_exec(&req.cmd, "");
    let s = text_or_exec(&req.service, "sing-box");
    let cmd = c.as_str();
    if text_eq(cmd, "ping") {
        HelperCommand::Ping
    } else if text_eq(cmd, "status") {
        HelperCommand::Status { service: s }
    } else if text_eq(cmd, "start") {
        HelperCommand::Start { service: s, config_path: text_or_exec(&req.config_path, "") }
    } else if text_eq(cmd, "stop") {
        HelperCommand::Stop { service: s }
    } else if text_eq(cmd, "restart") {
        HelperCommand::Restart { service: s, config_path: text_or_exec(&req.config_path, "") }
    } else if text_eq(cmd, "install") {
        HelperCommand::Install {
            service: s,
            exe_path: text_or_exec(&req.exe_path, ""),
            singbox_path: text_or_exec(&req.singbox_path, ""),
            config_path: text_or_exec(&req.config_path, ""),
            working_dir: text_or_exec(&req.working_dir, ""),
            error_log: text_or_exec(&req.error_log, ""),
        }
    } else if text_eq(cmd, "uninstall") {
        HelperCommand::Uninstall { service: s }
    } else if text_eq(cmd, "clear_proxy") {
        HelperCommand::ClearProxy
    } else {
        HelperCommand::Unknown { cmd: c }
    }
}

/// The helper's answer to a request.
pub enum HelperReply {
    Done,
    Pong,
    Status { state: ServiceState, pid: Option<u32> },
    Error(String),
}

/// The answer in the abstract.
pub enum ReplyView {
    Done,
    Pong,
    Status(ServiceState, Option<u32>),
    Error(Seq<char>),
}

pub open spec fn reply_view(r: HelperReply) -> ReplyView {
    match r {
        HelperReply::Done => ReplyView::Done,
        HelperReply::Pong => ReplyView::Pong,
        HelperReply::Status { state, pid } => ReplyView::Status(state, pid),
        HelperReply::Error(e) => ReplyView::Error(e@),
    }
}

/// What the helper needs done next.
pub enum HelperAction {
    /// Whether a file exists: answer with `Exists`.
    CheckFile(String),
    /// Run `launchctl` with these arguments: answer with `Ran`.
    Launchctl(Vec<String>),
    /// Run a program with these arguments: answer with `Ran`.
    Run(String, Vec<String>),
    /// Wait this many milliseconds: answer with `Slept`.
    Sleep(u64),
    /// Write a file: answer with `Written`.
    WriteFile(String, String),
    /// Remove a file: answer with `Written`.
    RemoveFile(String),
    /// Find the TUN gateways in this configuration: answer with `Gateways`.
    ReadGateways(String),
    /// Keep these DNS servers set and set them on every network service:
    /// answer with `Done`.
    SetDns(Vec<String>),
    /// Keep no DNS servers and return every network service to automatic
    /// DNS: answer with `Done`.
    ClearDns,
    /// Turn off every network service's proxies: answer with `Done`.
    ClearProxy,
    /// Send this reply; the job is over.
    Reply(HelperReply),
}

/// What the caller reports back.
pub enum HelperEvent {
    Exists(bool),
    Ran { success: bool, output: String },
    Slept,
    Written(Result<(), String>),
    Gateways(Option<TunGateways>),
    Done,
}

/// An action in the abstract.
pub enum ActionView {
    CheckFile(Seq<char>),
    Launchctl(Seq<Seq<char>>),
    Run(Seq<char>, Seq<Seq<char>>),
    Sleep(u64),
    WriteFile(Seq<char>, Seq<char>),
    RemoveFile(Seq<char>),
    ReadGateways(Seq<char>),
    SetDns(Seq<Seq<char>>),
    ClearDns,
    ClearProxy,
    Reply(ReplyView),
}

pub open spec fn action_view(a: HelperAction) -> ActionView {
    match a {
        HelperAction::CheckFile(p) => ActionView::CheckFile(p@),
        HelperAction::Launchctl(args) => ActionView::Launchctl(texts(args@)),
        HelperAction::Run(prog, args) => ActionView::Run(prog@, texts(args@)),
        HelperAction::Sleep(ms) => ActionView::Sleep(ms),
        HelperAction::WriteFile(p, c) => ActionView::WriteFile(p@, c@),
        HelperAction::RemoveFile(p) => ActionView::RemoveFile(p@),
        HelperAction::ReadGateways(p) => ActionView::ReadGateways(p@),
        HelperAction::SetDns(ips) => ActionView::SetDns(texts(ips@)),
        HelperAction::ClearDns => ActionView::ClearDns,
        HelperAction::ClearProxy => ActionView::ClearProxy,
        HelperAction::Reply(r) => ActionView::Reply(reply_view(r)),
    }
}

/// Which command a job runs.
#[derive(Clone, Copy, Debug, PartialEq, Eq, Structural)]
pub enum JobKind {
    Status,
    Start,
    Stop,
    Restart,
    Uninstall,
    Install,
    ClearProxy,
    Answered,
}

/// Where a job stands: the action it last asked for.
#[derive(Clone, Copy, Debug, PartialEq, Eq, Structural)]
pub enum Phase {
    StatusCheck,
    StatusPrint,
    StartCheck,
    StartBootstrap,
    StartKickstart,
    StartPollSleep,
    StartPollCheck,
    StartPollPrint,
    StartTunWait,
    StartGateways,
    StartDnsSet,
    StopKill,
    StopPollSleep,
    StopPollCheck,
    StopPollPrint,
    StopClear,
    RestartPause,
    UninstallBootout,
    UninstallCheck,
    UninstallRemove,
    InstallWrite,
    InstallChown,
    InstallChmod,
    InstallBootout,
    InstallBootstrap,
    ClearProxyRun,
    Finished,
}

/// A command being carried out.
pub struct HelperJob {
    kind: JobKind,
    phase: Phase,
    polls: u32,
    service: String,
    config_path: String,
}

/// A job in the abstract: its command, phase, status checks made in the
/// current wait loop, service and configuration path.
pub struct JobView {
    pub kind: JobKind,
    pub phase: Phase,
    pub polls: nat,
    pub service: Seq<char>,
    pub config: Seq<char>,
}

/// Whether `ev` answers the action that `phase` asked for.
pub open spec fn expects(phase: Phase, ev: HelperEvent) -> bool {
    match phase {
        Phase::StatusCheck | Phase::StartCheck | Phase::StartPollCheck | Phase::StopPollCheck
        | Phase::UninstallCheck => ev is Exists,
        Phase::StatusPrint | Phase::StartBootstrap | Phase::StartKickstart | Phase::StartPollPrint
        | Phase::StopKill | Phase::StopPollPrint | Phase::UninstallBootout | Phase::InstallChown
        | Phase::InstallChmod | Phase::InstallBootout | Phase::InstallBootstrap => ev is Ran,
        Phase::StartPollSleep | Phase::StartTunWait | Phase::StopPollSleep | Phase::RestartPause =>
            ev is Slept,
        Phase::UninstallRemove | Phase::InstallWrite => ev is Written,
        Phase::StartGateways => ev is Gateways,
        Phase::StartDnsSet | Phase::StopClear | Phase::ClearProxyRun => ev is Done,
        Phase::Finished => false,
    }
}

pub open spec fn at(j: JobView, p: Phase) -> JobView {
    JobView { phase: p, ..j }
}

pub open spec fn finish(j: JobView, v: ReplyView) -> (JobView, ActionView) {
    (at(j, Phase::Finished), ActionView::Reply(v))
}

pub open spec fn check_plist(j: JobView) -> ActionView {
    ActionView::CheckFile(plist_path_of(j.service))
}

pub open spec fn launchctl_on(j: JobView, verb: Seq<char>) -> ActionView {
    ActionView::Launchctl(seq![verb, target_of(j.service)])
}

/// The first step of a start: look for the plist.
pub open spec fn start_over(j: JobView) -> (JobView, ActionView) {
    (JobView { phase: Phase::StartCheck, polls: 0, ..j }, check_plist(j))
}

/// After a status check that did not find the service running: wait and
/// look again, until the checks run out; then the start is reported done.
pub open spec fn start_next_poll(j: JobView) -> (JobView, ActionView) {
    if j.polls + 1 < START_POLLS {
        (JobView { phase: Phase::StartPollSleep, polls: j.polls + 1, ..j }, ActionView::Sleep(250))
    } else {
        finish(j, ReplyView::Done)
    }
}

/// After a status check that did not find the service stopped: wait and
/// look again, until the checks run out; then clear DNS all the same.
pub open spec fn stop_next_poll(j: JobView) -> (JobView, ActionView) {
    if j.polls + 1 < STOP_POLLS {
        (JobView { phase: Phase::StopPollSleep, polls: j.polls + 1, ..j }, ActionView::Sleep(500))
    } else {
        (at(j, Phase::StopClear), ActionView::ClearDns)
    }
}

/// The helper's next move, given what the last action gave.
pub open spec fn transition(j: JobView, ev: HelperEvent) -> (JobView, ActionView) {
    match j.phase {
        Phase::StatusCheck => match ev {
            HelperEvent::Exists(true) => (at(j, Phase::StatusPrint), launchctl_on(j, "print"@)),
            _ => finish(j, ReplyView::Status(ServiceState::NotInstalled, None)),
        },
        Phase::StatusPrint => match ev {
            HelperEvent::Ran { output, .. } => finish(
                j,
                ReplyView::Status(
                    if launchctl_pid(output@) is Some {
                        ServiceState::Running
                    } else {
                        ServiceState::Stopped
                    },
                    launchctl_pid(output@),
                ),
            ),
            _ => finish(j, ReplyView::Done),
        },
        Phase::StartCheck => match ev {
            HelperEvent::Exists(true) => (
                at(j, Phase::StartBootstrap),
                ActionView::Launchctl(seq!["bootstrap"@, "system"@, plist_path_of(j.service)]),
            ),
            _ => finish(j, ReplyView::Error("service_not_found"@)),
        },
        Phase::StartBootstrap => (
            at(j, Phase::StartKickstart),
            ActionView::Launchctl(seq!["kickstart"@, "-k"@, target_of(j.service)]),
        ),
        Phase::StartKickstart => match ev {
            HelperEvent::Ran { success: true, .. } => (
                JobView { phase: Phase::StartPollSleep, polls: 0, ..j },
                ActionView::Sleep(250),
            ),
            HelperEvent::Ran { success: false, output } => finish(
                j,
                ReplyView::Error("启动失败: "@ + trim_spaces(output@)),
            ),
            _ => finish(j, ReplyView::Done),
        },
        Phase::StartPollSleep => (at(j, Phase::StartPollCheck), check_plist(j)),
        Phase::StartPollCheck => match ev {
            HelperEvent::Exists(true) => (at(j, Phase::StartPollPrint), launchctl_on(j, "print"@)),
            _ => start_next_poll(j),
        },
        Phase::StartPollPrint => match ev {
            HelperEvent::Ran { output, .. } => if launchctl_pid(output@) is Some {
                if j.config.len() == 0 {
                    finish(j, ReplyView::Done)
                } else {
                    (at(j, Phase::StartTunWait), ActionView::Sleep(2000))
                }
            } else {
                finish(j, ReplyView::Error("服务启动后立即退出，可能是配置文件有误，请检查配置"@))
            },
            _ => finish(j, ReplyView::Done),
        },
        Phase::StartTunWait => (at(j, Phase::StartGateways), ActionView::ReadGateways(j.config)),
        Phase::StartGateways => match ev {
            HelperEvent::Gateways(Some(g)) => if gateway_servers(g).len() > 0 {
                (at(j, Phase::StartDnsSet), ActionView::SetDns(gateway_servers(g)))
            } else {
                finish(j, ReplyView::Done)
            },
            _ => finish(j, ReplyView::Done),
        },
        Phase::StartDnsSet => finish(j, ReplyView::Done),
        Phase::StopKill => (
            JobView { phase: Phase::StopPollSleep, polls: 0, ..j },
            ActionView::Sleep(500),
        ),
        Phase::StopPollSleep => (at(j, Phase::StopPollCheck), check_plist(j)),
        Phase::StopPollCheck => match ev {
            HelperEvent::Exists(true) => (at(j, Phase::StopPollPrint), launchctl_on(j, "print"@)),
            _ => stop_next_poll(j),
        },
        Phase::StopPollPrint => match ev {
            HelperEvent::Ran { output, .. } => if launchctl_pid(output@) is None {
                (at(j, Phase::StopClear), ActionView::ClearDns)
            } else {
                stop_next_poll(j)
            },
            _ => finish(j, ReplyView::Done),
        },
        Phase::StopClear => match j.kind {
            JobKind::Restart => (at(j, Phase::RestartPause), ActionView::Sleep(500)),
            JobKind::Uninstall => (at(j, Phase::UninstallBootout), launchctl_on(j, "bootout"@)),
            _ => finish(j, ReplyView::Done),
        },
        Phase::RestartPause => start_over(j),
        Phase::UninstallBootout => (at(j, Phase::UninstallCheck), check_plist(j)),
        Phase::UninstallCheck => match ev {
            HelperEvent::Exists(true) => (
                at(j, Phase::UninstallRemove),
                ActionView::RemoveFile(plist_path_of(j.service)),
            ),
            _ => finish(j, ReplyView::Done),
        },
        Phase::UninstallRemove => match ev {
            HelperEvent::Written(Err(e)) => finish(j, ReplyView::Error("删除 plist 失败: "@ + e@)),
            _ => finish(j, ReplyView::Done),
        },
        Phase::InstallWrite => match ev {
            HelperEvent::Written(Err(e)) => finish(j, ReplyView::Error("写入 plist 失败: "@ + e@)),
            _ => (
                at(j, Phase::InstallChown),
                ActionView::Run("chown"@, seq!["root:wheel"@, plist_path_of(j.service)]),
            ),
        },
        Phase::InstallChown => (
            at(j, Phase::InstallChmod),
            ActionView::Run("chmod"@, seq!["644"@, plist_path_of(j.service)]),
        ),
        Phase::InstallChmod => (at(j, Phase::InstallBootout), launchctl_on(j, "bootout"@)),
        Phase::InstallBootout => (
            at(j, Phase::InstallBootstrap),
            ActionView::Launchctl(seq!["bootstrap"@, "system"@, plist_path_of(j.service)]),
        ),
        Phase::InstallBootstrap => finish(j, ReplyView::Done),
        Phase::ClearProxyRun => finish(j, ReplyView::Done),
        Phase::Finished => finish(j, ReplyView::Done),
    }
}


/// The job a command starts and its first action; an install writes the
/// plist text `content`.
pub open spec fn begin_view(cmd: HelperCommand, content: Seq<char>) -> (JobView, ActionView) {
    let idle = |k: JobKind, p: Phase, s: Seq<char>, c: Seq<char>|
        JobView { kind: k, phase: p, polls: 0, service: s, config: c };
    match cmd {
        HelperCommand::Ping => (
            idle(JobKind::Answered, Phase::Finished, Seq::empty(), Seq::empty()),
            ActionView::Reply(ReplyView::Pong),
        ),
        HelperCommand::Unknown { cmd } => (
            idle(JobKind::Answered, Phase::Finished, Seq::empty(), Seq::empty()),
            ActionView::Reply(ReplyView::Error("未知指令: "@ + cmd@)),
        ),
        HelperCommand::Status { service } => (
            idle(JobKind::Status, Phase::StatusCheck, service@, Seq::empty()),
            ActionView::CheckFile(plist_path_of(service@)),
        ),
        HelperCommand::Start { service, config_path } => (
            idle(JobKind::Start, Phase::StartCheck, service@, config_path@),
            ActionView::CheckFile(plist_path_of(service@)),
        ),
        HelperCommand::Stop { service } => (
            idle(JobKind::Stop, Phase::StopKill, service@, Seq::empty()),
            ActionView::Launchctl(seq!["kill"@, "TERM"@, target_of(service@)]),
        ),
        HelperCommand::Restart { service, config_path } => (
            idle(JobKind::Restart, Phase::StopKill, service@, config_path@),
            ActionView::Launchctl(seq!["kill"@, "TERM"@, target_of(service@)]),
        ),
        HelperCommand::Uninstall { service } => (
            idle(JobKind::Uninstall, Phase::StopKill, service@, Seq::empty()),
            ActionView::Launchctl(seq!["kill"@, "TERM"@, target_of(service@)]),
        ),
        HelperCommand::Install { service, .. } => (
            idle(JobKind::Install, Phase::InstallWrite, service@, Seq::empty()),
            ActionView::WriteFile(plist_path_of(service@), content),
        ),
        HelperCommand::ClearProxy => (
            idle(JobKind::ClearProxy, Phase::ClearProxyRun, Seq::empty(), Seq::empty()),
            ActionView::ClearProxy,
        ),
    }
}

fn texts_of2(a: String, b: String) -> (r: Vec<String>)
    ensures
        texts(r@) == seq![a@, b@],
{
    let r = vec![a, b];
    assert(texts(r@) =~= seq![a@, b@]);
    r
}

fn texts_of3(a: String, b: String, c: String) -> (r: Vec<String>)
    ensures
        texts(r@) == seq![a@, b@, c@],
{
    let r = vec![a, b, c];
    assert(texts(r@) =~= seq![a@, b@, c@]);
    r
}

fn act_check_plist(service: &String) -> (r: HelperAction)
    ensures
        action_view(r) == ActionView::CheckFile(plist_path_of(service@)),
{
    HelperAction::CheckFile(plist_path(service.as_str()))
}

fn act_on_target(verb: &str, service: &String) -> (r: HelperAction)
    ensures
        action_view(r) == ActionView::Launchctl(seq![verb@, target_of(service@)]),
{
    HelperAction::Launchctl(texts_of2(owned(verb), service_target(service.as_str())))
}

fn act_kill(service: &String) -> (r: HelperAction)
    ensures
        action_view(r) == ActionView::Launchctl(seq!["kill"@, "TERM"@, target_of(service@)]),
{
    HelperAction::Launchctl(texts_of3(owned("kill"), owned("TERM"), service_target(service.as_str())))
}

fn act_kickstart(service: &String) -> (r: HelperAction)
    ensures
        action_view(r) == ActionView::Launchctl(seq!["kickstart"@, "-k"@, target_of(service@)]),
{
    HelperAction::Launchctl(texts_of3(owned("kickstart"), owned("-k"), service_target(service.as_str())))
}

fn act_bootstrap(service: &String) -> (r: HelperAction)
    ensures
        action_view(r) == ActionView::Launchctl(
            seq!["bootstrap"@, "system"@, plist_path_of(service@)],
        ),
{
    HelperAction::Launchctl(texts_of3(owned("bootstrap"), owned("system"), plist_path(service.as_str())))
}

fn act_run_on_plist(program: &str, arg: &str, service: &String) -> (r: HelperAction)
    ensures
        action_view(r) == ActionView::Run(program@, seq![arg@, plist_path_of(service@)]),
{
    HelperAction::Run(owned(program), texts_of2(owned(arg), plist_path(service.as_str())))
}

fn act_reply(r: HelperReply) -> (a: HelperAction)
    ensures
        action_view(a) == ActionView::Reply(reply_view(r)),
{
    HelperAction::Reply(r)
}

fn error_reply(prefix: &str, detail: &str) -> (a: HelperAction)
    ensures
        action_view(a) == ActionView::Reply(ReplyView::Error(prefix@ + detail@)),
{
    HelperAction::Reply(HelperReply::Error(concat_text(prefix, detail)))
}

impl HelperJob {
    pub closed spec fn view(&self) -> JobView {
        JobView {
            kind: self.kind,
            phase: self.phase,
            polls: self.polls as nat,
            service: self.service@,
            config: self.config_path@,
        }
    }

    /// Whether the job has replied.
    pub fn is_finished(&self) -> (r: bool)
        ensures
            r == (self.view().phase == Phase::Finished),
    {
        self.phase == Phase::Finished
    }

    /// Starts the job that carries out a command; gives its first action.
    pub fn begin(cmd: HelperCommand) -> (r: (HelperJob, HelperAction))
        ensures
            (r.0.view(), action_view(r.1)) == begin_view(
                cmd,
                match action_view(r.1) {
                    ActionView::WriteFile(_, c) => c,
                    _ => Seq::empty(),
                },
            ),
            cmd matches HelperCommand::Install {
                service,
                exe_path,
                singbox_path,
                config_path,
                working_dir,
                error_log,
            } ==> (r.1 matches HelperAction::WriteFile(_, c) && exists|rd: Seq<char>|
                run_dir_ok(working_dir@, config_path@, rd) && c@ == plist_xml(
                    label_of(service@),
                    exe_path@,
                    service@,
                    rd,
                    error_log@,
                    singbox_path@,
                    config_path@,
                )),
    {
        let none = || -> (r: String)
            ensures
                r@ == Seq::<char>::empty(),
            { String::new() };
        match cmd {
            HelperCommand::Ping => (
                HelperJob { kind: JobKind::Answered, phase: Phase::Finished, polls: 0, service: none(), config_path: none() },
                act_reply(HelperReply::Pong),
            ),
            HelperCommand::Unknown { cmd } => (
                HelperJob { kind: JobKind::Answered, phase: Phase::Finished, polls: 0, service: none(), config_path: none() },
                error_reply("未知指令: ", cmd.as_str()),
            ),
            HelperCommand::Status { service } => {
                let a = act_check_plist(&service);
                (HelperJob { kind: JobKind::Status, phase: Phase::StatusCheck, polls: 0, service, config_path: none() }, a)
            },
            HelperCommand::Start { service, config_path } => {
                let a = act_check_plist(&service);
                (HelperJob { kind: JobKind::Start, phase: Phase::StartCheck, polls: 0, service, config_path }, a)
            },
            HelperCommand::Stop { service } => {
                let a = act_kill(&service);
                (HelperJob { kind: JobKind::Stop, phase: Phase::StopKill, polls: 0, service, config_path: none() }, a)
            },
            HelperCommand::Restart { service, config_path } => {
                let a = act_kill(&service);
                (HelperJob { kind: JobKind::Restart, phase: Phase::StopKill, polls: 0, service, config_path }, a)
            },
            HelperCommand::Uninstall { service } => {
                let a = act_kill(&service);
                (HelperJob { kind: JobKind::Uninstall, phase: Phase::StopKill, polls: 0, service, config_path: none() }, a)
            },
            HelperCommand::Install { service, exe_path, singbox_path, config_path, working_dir, error_log } => {
                let label = plist_label(service.as_str());
                let rd = service_run_dir(working_dir.as_str(), config_path.as_str());
                let content = plist_content(
                    label.as_str(),
                    exe_path.as_str(),
                    service.as_str(),
                    rd.as_str(),
                    error_log.as_str(),
                    singbox_path.as_str(),
                    config_path.as_str(),
                );
                assert(run_dir_ok(working_dir@, config_path@, rd@));
                let path = plist_path(service.as_str());
                (
                    HelperJob { kind: JobKind::Install, phase: Phase::InstallWrite, polls: 0, service, config_path: none() },
                    HelperAction::WriteFile(path, content),
                )
            },
            HelperCommand::ClearProxy => (
                HelperJob { kind: JobKind::ClearProxy, phase: Phase::ClearProxyRun, polls: 0, service: none(), config_path: none() },
                HelperAction::ClearProxy,
            ),
        }
    }

    fn start_next_poll(&mut self) -> (a: HelperAction)
        requires
            old(self).phase == Phase::StartPollCheck || old(self).phase == Phase::StartPollPrint,
        ensures
            (final(self).view(), action_view(a)) == start_next_poll(old(self).view()),
    {
        if self.polls < START_POLLS - 1 {
            self.polls = self.polls + 1;
            self.phase = Phase::StartPollSleep;
            HelperAction::Sleep(250)
        } else {
            self.phase = Phase::Finished;
            act_reply(HelperReply::Done)
        }
    }

    fn stop_next_poll(&mut self) -> (a: HelperAction)
        requires
            old(self).phase == Phase::StopPollCheck || old(self).phase == Phase::StopPollPrint,
        ensures
            (final(self).view(), action_view(a)) == stop_next_poll(old(self).view()),
    {
        if self.polls < STOP_POLLS - 1 {
            self.polls = self.polls + 1;
            self.phase = Phase::StopPollSleep;
            HelperAction::Sleep(500)
        } else {
            self.phase = Phase::StopClear;
            HelperAction::ClearDns
        }
    }

    /// Takes what the last action gave and says what to do next.
    pub fn step(&mut self, ev: HelperEvent) -> (a: HelperAction)
        requires
            expects(old(self).view().phase, ev),
        ensures
            (final(self).view(), action_view(a)) == transition(old(self).view(), ev),
    {
        match self.phase {
            Phase::StatusCheck => match ev {
                HelperEvent::Exists(true) => {
                    self.phase = Phase::StatusPrint;
                    act_on_target("print", &self.service)
                },
                _ => {
                    self.phase = Phase::Finished;
                    act_reply(HelperReply::Status { state: ServiceState::NotInstalled, pid: None })
                },
            },
            Phase::StatusPrint => match ev {
                HelperEvent::Ran { output, .. } => {
                    let (state, pid) = service_status(true, output.as_str());
                    self.phase = Phase::Finished;
                    act_reply(HelperReply::Status { state, pid })
                },
                _ => {
                    self.phase = Phase::Finished;
                    act_reply(HelperReply::Done)
                },
            },
            Phase::StartCheck => match ev {
                HelperEvent::Exists(true) => {
                    self.phase = Phase::StartBootstrap;
                    act_bootstrap(&self.service)
                },
                _ => {
                    self.phase = Phase::Finished;
                    act_reply(HelperReply::Error(owned("service_not_found")))
                },
            },
            Phase::StartBootstrap => {
                self.phase = Phase::StartKickstart;
                act_kickstart(&self.service)
            },
            Phase::StartKickstart => match ev {
                HelperEvent::Ran { success, output } => {
                    if success {
                        self.phase = Phase::StartPollSleep;
                        self.polls = 0;
                        HelperAction::Sleep(250)
                    } else {
                        self.phase = Phase::Finished;
                        let msg = crate::text::trim(output.as_str());
                        error_reply("启动失败: ", msg.as_str())
                    }
                },
                _ => {
                    self.phase = Phase::Finished;
                    act_reply(HelperReply::Done)
                },
            },
            Phase::StartPollSleep => {
                self.phase = Phase::StartPollCheck;
                act_check_plist(&self.service)
            },
            Phase::StartPollCheck => match ev {
                HelperEvent::Exists(true) => {
                    self.phase = Phase::StartPollPrint;
                    act_on_target("print", &self.service)
                },
                _ => self.start_next_poll(),
            },
            Phase::StartPollPrint => match ev {
                HelperEvent::Ran { output, .. } => {
                    let pid = crate::launchd::parse_launchctl_pid(output.as_str());
                    if pid.is_some() {
                        if self.config_path.as_str().unicode_len() == 0 {
                            self.phase = Phase::Finished;
                            act_reply(HelperReply::Done)
                        } else {
                            self.phase = Phase::StartTunWait;
                            HelperAction::Sleep(2000)
                        }
                    } else {
                        self.phase = Phase::Finished;
                        act_reply(HelperReply::Error(owned("服务启动后立即退出，可能是配置文件有误，请检查配置")))
                    }
                },
                _ => {
                    self.phase = Phase::Finished;
                    act_reply(HelperReply::Done)
                },
            },
            Phase::StartTunWait => {
                self.phase = Phase::StartGateways;
                HelperAction::ReadGateways(self.config_path.clone())
            },
            Phase::StartGateways => match ev {
                HelperEvent::Gateways(Some(g)) => {
                    let ips = dns_servers_for(&g);
                    if ips.len() > 0 {
                        self.phase = Phase::StartDnsSet;
                        HelperAction::SetDns(ips)
                    } else {
                        self.phase = Phase::Finished;
                        act_reply(HelperReply::Done)
                    }
                },
                _ => {
                    self.phase = Phase::Finished;
                    act_reply(HelperReply::Done)
                },
            },
            Phase::StartDnsSet => {
                self.phase = Phase::Finished;
                act_reply(HelperReply::Done)
            },
            Phase::StopKill => {
                self.phase = Phase::StopPollSleep;
                self.polls = 0;
                HelperAction::Sleep(500)
            },
            Phase::StopPollSleep => {
                self.phase = Phase::StopPollCheck;
                act_check_plist(&self.service)
            },
            Phase::StopPollCheck => match ev {
                HelperEvent::Exists(true) => {
                    self.phase = Phase::StopPollPrint;
                    act_on_target("print", &self.service)
                },
                _ => self.stop_next_poll(),
            },
            Phase::StopPollPrint => match ev {
                HelperEvent::Ran { output, .. } => {
                    let pid = crate::launchd::parse_launchctl_pid(output.as_str());
                    if pid.is_none() {
                        self.phase = Phase::StopClear;
                        HelperAction::ClearDns
                    } else {
                        self.stop_next_poll()
                    }
                },
                _ => {
                    self.phase = Phase::Finished;
                    act_reply(HelperReply::Done)
                },
            },
            Phase::StopClear => match self.kind {
                JobKind::Restart => {
                    self.phase = Phase::RestartPause;
                    HelperAction::Sleep(500)
                },
                JobKind::Uninstall => {
                    self.phase = Phase::UninstallBootout;
                    act_on_target("bootout", &self.service)
                },
                _ => {
                    self.phase = Phase::Finished;
                    act_reply(HelperReply::Done)
                },
            },
            Phase::RestartPause => {
                self.phase = Phase::StartCheck;
                self.polls = 0;
                act_check_plist(&self.service)
            },
            Phase::UninstallBootout => {
                self.phase = Phase::UninstallCheck;
                act_check_plist(&self.service)
            },
            Phase::UninstallCheck => match ev {
                HelperEvent::Exists(true) => {
                    self.phase = Phase::UninstallRemove;
                    HelperAction::RemoveFile(plist_path(self.service.as_str()))
                },
                _ => {
                    self.phase = Phase::Finished;
                    act_reply(HelperReply::Done)
                },
            },
            Phase::UninstallRemove => match ev {
                HelperEvent::Written(Err(e)) => {
                    self.phase = Phase::Finished;
                    error_reply("删除 plist 失败: ", e.as_str())
                },
                _ => {
                    self.phase = Phase::Finished;
                    act_reply(HelperReply::Done)
                },
            },
            Phase::InstallWrite => match ev {
                HelperEvent::Written(Err(e)) => {
                    self.phase = Phase::Finished;
                    error_reply("写入 plist 失败: ", e.as_str())
                },
                _ => {
                    self.phase = Phase::InstallChown;
                    act_run_on_plist("chown", "root:wheel", &self.service)
                },
            },
            Phase::InstallChown => {
                self.phase = Phase::InstallChmod;
                act_run_on_plist("chmod", "644", &self.service)
            },
            Phase::InstallChmod => {
                self.phase = Phase::InstallBootout;
                act_on_target("bootout", &self.service)
            },
            Phase::InstallBootout => {
                self.phase = Phase::InstallBootstrap;
                act_bootstrap(&self.service)
            },
            Phase::InstallBootstrap => {
                self.phase = Phase::Finished;
                act_reply(HelperReply::Done)
            },
            Phase::ClearProxyRun => {
                self.phase = Phase::Finished;
                act_reply(HelperReply::Done)
            },
            Phase::Finished => {
                act_reply(HelperReply::Done)
            },
        }
    }
}


/// The status checks of a wait loop stay within its count.
pub open spec fn job_wf(j: JobView) -> bool {
    &&& (j.phase == Phase::StartPollSleep || j.phase == Phase::StartPollCheck || j.phase
        == Phase::StartPollPrint) ==> j.polls < START_POLLS
    &&& (j.phase == Phase::StopPollSleep || j.phase == Phase::StopPollCheck || j.phase
        == Phase::StopPollPrint) ==> j.polls < STOP_POLLS
}

/// Steps left in the start part of a job, at most.
pub open spec fn start_rank(p: Phase, polls: nat) -> nat {
    match p {
        Phase::StartDnsSet => 1,
        Phase::StartGateways => 2,
        Phase::StartTunWait => 3,
        Phase::StartPollPrint => (4 + 3 * (19 - polls)) as nat,
        Phase::StartPollCheck => (5 + 3 * (19 - polls)) as nat,
        Phase::StartPollSleep => (6 + 3 * (19 - polls)) as nat,
        Phase::StartKickstart => 64,
        Phase::StartBootstrap => 65,
        Phase::StartCheck => 66,
        _ => 0,
    }
}

/// Steps left in the stop part of a job, at most; `clear` counts those from
/// clearing DNS on.
pub open spec fn stop_rank(clear: nat, p: Phase, polls: nat) -> nat {
    match p {
        Phase::StopClear => clear,
        Phase::StopPollPrint => (clear + 1 + 3 * (29 - polls)) as nat,
        Phase::StopPollCheck => (clear + 2 + 3 * (29 - polls)) as nat,
        Phase::StopPollSleep => (clear + 3 + 3 * (29 - polls)) as nat,
        Phase::StopKill => clear + 91,
        _ => 0,
    }
}

/// How many more steps a job may take before it replies, at most.
pub open spec fn job_measure(j: JobView) -> nat {
    match j.phase {
        Phase::Finished => 0,
        Phase::StatusPrint => 1,
        Phase::StatusCheck => 2,
        Phase::InstallBootstrap => 1,
        Phase::InstallBootout => 2,
        Phase::InstallChmod => 3,
        Phase::InstallChown => 4,
        Phase::InstallWrite => 5,
        Phase::ClearProxyRun => 1,
        Phase::UninstallRemove => 1,
        Phase::UninstallCheck => 2,
        Phase::UninstallBootout => 3,
        Phase::RestartPause => 67,
        Phase::StopClear | Phase::StopPollPrint | Phase::StopPollCheck | Phase::StopPollSleep
        | Phase::StopKill => stop_rank(
            match j.kind {
                JobKind::Restart => 68,
                JobKind::Uninstall => 4,
                _ => 1,
            },
            j.phase,
            j.polls,
        ),
        _ => start_rank(j.phase, j.polls),
    }
}

/// Every job comes to its reply: each step keeps the wait loops within their
/// counts and brings the job strictly closer to replying, so a job that
/// `begin` starts replies within `job_measure` of its first state steps, and
/// the replying step ends it.
pub proof fn law_job_progress(j: JobView, ev: HelperEvent)
    requires
        job_wf(j),
        expects(j.phase, ev),
    ensures
        job_wf(transition(j, ev).0),
        job_measure(transition(j, ev).0) < job_measure(j),
        transition(j, ev).1 is Reply <==> transition(j, ev).0.phase == Phase::Finished,
        transition(j, ev).0.kind == j.kind,
{
}

/// A job as `begin` starts it keeps its wait loops within their counts, and
/// replies within 180 steps.
pub proof fn law_job_begins_bounded(cmd: HelperCommand, content: Seq<char>)
    ensures
        job_wf(begin_view(cmd, content).0),
        job_measure(begin_view(cmd, content).0) <= 180,
        begin_view(cmd, content).1 is Reply <==> begin_view(cmd, content).0.phase == Phase::Finished,
{
}

/// Whether `ev` is the kind of event that answers the action `a`; a reply
/// is answered by none.
pub open spec fn answers(a: ActionView, ev: HelperEvent) -> bool {
    match a {
        ActionView::CheckFile(_) => ev is Exists,
        ActionView::Launchctl(_) | ActionView::Run(_, _) => ev is Ran,
        ActionView::Sleep(_) => ev is Slept,
        ActionView::WriteFile(_, _) | ActionView::RemoveFile(_) => ev is Written,
        ActionView::ReadGateways(_) => ev is Gateways,
        ActionView::SetDns(_) | ActionView::ClearDns | ActionView::ClearProxy => ev is Done,
        ActionView::Reply(_) => false,
    }
}

/// A caller that answers each action with its kind of event meets what
/// `step` asks: the event that answers the action a job begins with, or the
/// one `step` returns, is the one the job's new phase expects.
pub proof fn law_answers_are_expected(cmd: HelperCommand, content: Seq<char>, j: JobView, ev: HelperEvent, next: HelperEvent)
    requires
        expects(j.phase, ev),
    ensures
        answers(begin_view(cmd, content).1, next) <==> expects(begin_view(cmd, content).0.phase, next),
        answers(transition(j, ev).1, next) <==> expects(transition(j, ev).0.phase, next),
{
}

/// Each command string names its own command, with the request's fields in
/// the command's fields of the same name (the service `sing-box` when none
/// is given, other fields empty): an install takes its executable from
/// `exe_path` and the sing-box binary from `singbox_path`, and an uninstall is
/// an uninstall, not a stop.
pub proof fn law_dispatch_routes_fields(req: HelperRequest, r: HelperCommand)
    requires
        dispatched(req, r),
    ensures
        text_or(req.cmd, ""@) == "ping"@ ==> r is Ping,
        text_or(req.cmd, ""@) == "status"@ ==> (r matches HelperCommand::Status { service } && service@
            == text_or(req.service, "sing-box"@)),
        text_or(req.cmd, ""@) == "start"@ ==> (r matches HelperCommand::Start { service, config_path }
            && service@ == text_or(req.service, "sing-box"@) && config_path@ == text_or(req.config_path, ""@)),
        text_or(req.cmd, ""@) == "stop"@ ==> (r matches HelperCommand::Stop { service } && service@
            == text_or(req.service, "sing-box"@)),
        text_or(req.cmd, ""@) == "restart"@ ==> (r matches HelperCommand::Restart { service, config_path }
            && service@ == text_or(req.service, "sing-box"@) && config_path@ == text_or(req.config_path, ""@)),
        text_or(req.cmd, ""@) == "install"@ ==> r is Install,
        r matches HelperCommand::Install { service, exe_path, singbox_path, config_path, working_dir, error_log }
            ==> service@ == text_or(req.service, "sing-box"@) && exe_path@ == text_or(req.exe_path, ""@)
            && singbox_path@ == text_or(req.singbox_path, ""@) && config_path@ == text_or(req.config_path, ""@)
            && working_dir@ == text_or(req.working_dir, ""@) && error_log@ == text_or(req.error_log, ""@),
        text_or(req.cmd, ""@) == "uninstall"@ ==> (r matches HelperCommand::Uninstall { service } && service@
            == text_or(req.service, "sing-box"@)),
        r is Uninstall <==> text_or(req.cmd, ""@) == "uninstall"@,
        r is Stop <==> text_or(req.cmd, ""@) == "stop"@,
        text_or(req.cmd, ""@) == "clear_proxy"@ ==> r is ClearProxy,
{
    reveal_strlit("ping");
    reveal_strlit("status");
    reveal_strlit("start");
    reveal_strlit("stop");
    reveal_strlit("restart");
    reveal_strlit("install");
    reveal_strlit("uninstall");
    reveal_strlit("clear_proxy");
    assert("ping"@.len() == 4 && "stop"@.len() == 4 && "start"@.len() == 5 && "status"@.len() == 6);
    assert("restart"@.len() == 7 && "install"@.len() == 7 && "uninstall"@.len() == 9);
    assert("clear_proxy"@.len() == 11);
    assert("stop"@ != "ping"@) by {
        assert("stop"@[0] != "ping"@[0]);
    }
    assert("install"@ != "restart"@) by {
        assert("install"@[0] != "restart"@[0]);
    }
}

/// An uninstall stops the service, clears DNS, boots it out of launchd and
/// removes its plist when it is there.
pub proof fn law_uninstall_removes_plist(service: String, content: Seq<char>, j: JobView, ev: HelperEvent)
    requires
        j.kind == JobKind::Uninstall,
        expects(j.phase, ev),
    ensures
        begin_view(HelperCommand::Uninstall { service }, content).0.kind == JobKind::Uninstall,
        begin_view(HelperCommand::Uninstall { service }, content).0.service == service@,
        begin_view(HelperCommand::Uninstall { service }, content).0.phase == Phase::StopKill,
        j.phase == Phase::StopClear ==> transition(j, ev).0.phase == Phase::UninstallBootout
            && transition(j, ev).1 == ActionView::Launchctl(seq!["bootout"@, target_of(j.service)]),
        j.phase == Phase::UninstallCheck && ev == HelperEvent::Exists(true) ==> transition(j, ev).1
            == ActionView::RemoveFile(plist_path_of(j.service)),
{
}

/// A job keeps its command, service and configuration path throughout; a
/// restart starts with the request's configuration path, starts the service
/// over once stopped, and, once it runs, reads the gateways of that same
/// configuration.
pub proof fn law_restart_keeps_config(service: String, config_path: String, content: Seq<char>, j: JobView, ev: HelperEvent)
    requires
        expects(j.phase, ev),
    ensures
        begin_view(HelperCommand::Restart { service, config_path }, content).0.config == config_path@,
        begin_view(HelperCommand::Restart { service, config_path }, content).0.kind == JobKind::Restart,
        begin_view(HelperCommand::Start { service, config_path }, content).0.config == config_path@,
        transition(j, ev).0.config == j.config,
        transition(j, ev).0.service == j.service,
        transition(j, ev).0.kind == j.kind,
        j.phase == Phase::StopClear && j.kind == JobKind::Restart ==> transition(j, ev).0.phase
            == Phase::RestartPause,
        j.phase == Phase::RestartPause ==> transition(j, ev).0.phase == Phase::StartCheck
            && transition(j, ev).0.config == j.config,
        j.phase == Phase::StartPollPrint && j.config.len() > 0 && ev is Ran
            && launchctl_pid(ev->Ran_output@) is Some ==> transition(j, ev).0.phase == Phase::StartTunWait,
        j.phase == Phase::StartTunWait ==> transition(j, ev).1 == ActionView::ReadGateways(j.config),
{
}

/// A start that reads gateways with an IPv4 one sets DNS to that gateway
/// first, then the IPv6 one when there is one, and nothing else.
pub proof fn law_start_sets_ipv4_first(j: JobView, g: TunGateways)
    requires
        j.phase == Phase::StartGateways,
        g.ipv4 is Some,
    ensures
        transition(j, HelperEvent::Gateways(Some(g))).1 matches ActionView::SetDns(servers) && servers[0]
            == g.ipv4->0@ && servers.len() == (if g.ipv6 is Some { 2int } else { 1int }) && (g.ipv6 is Some ==> servers[1] == g.ipv6->0@),
{
}

/// The status reply: not installed exactly when the plist is missing; when
/// it is there, running with the pid that `launchctl print` shows, or
/// stopped when it shows none.
pub proof fn law_status_reply(j: JobView, ev: HelperEvent)
    requires
        expects(j.phase, ev),
    ensures
        j.phase == Phase::StatusCheck ==> (ev == HelperEvent::Exists(false) <==> transition(j, ev).1
            == ActionView::Reply(ReplyView::Status(ServiceState::NotInstalled, None))),
        j.phase == Phase::StatusCheck && ev == HelperEvent::Exists(true) ==> transition(j, ev).1
            == ActionView::Launchctl(seq!["print"@, target_of(j.service)]),
        j.phase == Phase::StatusPrint ==> (ev matches HelperEvent::Ran { output, .. } && match launchctl_pid(
            output@,
        ) {
            Some(pid) => transition(j, ev).1 == ActionView::Reply(
                ReplyView::Status(ServiceState::Running, Some(pid)),
            ),
            None => transition(j, ev).1 == ActionView::Reply(ReplyView::Status(ServiceState::Stopped, None)),
        }),
        transition(j, ev).1 matches ActionView::Reply(ReplyView::Status(ServiceState::NotInstalled, _))
            ==> j.phase == Phase::StatusCheck && ev == HelperEvent::Exists(false),
{
}

pub open spec fn stopping(p: Phase) -> bool {
    p == Phase::StopKill || p == Phase::StopPollSleep || p == Phase::StopPollCheck || p
        == Phase::StopPollPrint
}

/// Stopping the core always returns the network services to automatic DNS
/// before anything else: while stopping, a job never replies, and it leaves
/// the stop only by clearing DNS.
pub proof fn law_stop_clears_dns(j: JobView, ev: HelperEvent)
    requires
        stopping(j.phase),
        expects(j.phase, ev),
    ensures
        !(transition(j, ev).1 is Reply),
        stopping(transition(j, ev).0.phase) || (transition(j, ev).0.phase == Phase::StopClear
            && transition(j, ev).1 == ActionView::ClearDns),
{
}

/// A start that finds the TUN inbound's gateways keeps exactly those as the
/// DNS servers and sets them.
pub proof fn law_start_sets_gateways(j: JobView, ev: HelperEvent)
    requires
        j.phase == Phase::StartGateways,
        ev matches HelperEvent::Gateways(Some(g)) && gateway_servers(g).len() > 0,
    ensures
        transition(j, ev).1 == ActionView::SetDns(gateway_servers(ev->Gateways_0->0)),
        transition(j, ev).0.phase == Phase::StartDnsSet,
{
}


/// A start that sees the service stopped right after launch reports that the
/// service exited, and one that sees it running with no configuration path
/// reports success.
pub proof fn law_start_reports_exit(j: JobView, output: String, success: bool)
    requires
        j.phase == Phase::StartPollPrint,
    ensures
        launchctl_pid(output@) is None ==> transition(j, HelperEvent::Ran { success, output }).1
            == ActionView::Reply(ReplyView::Error("服务启动后立即退出，可能是配置文件有误，请检查配置"@)),
        launchctl_pid(output@) is Some && j.config.len() == 0 ==> transition(
            j,
            HelperEvent::Ran { success, output },
        ).1 == ActionView::Reply(ReplyView::Done),
{
}

} // verus!

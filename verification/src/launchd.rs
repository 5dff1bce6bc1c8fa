//! launchd service files and status for the sing-box core: labels, plist
//! paths and contents, and the pid in `launchctl print` output.

use vstd::prelude::*;
use crate::text::{
    chars_of, concat_text, lines_chars, lines_of, owned, parse_unsigned, parse_unsigned_range, rfind_char,
    range_starts_with, split_chars, split_on, string_of, trim_bounds, trim_spaces, views, Strip,
};

verus! {

/// The launchd label of a service: `com.singboard.<name>`.
pub open spec fn label_of(service_name: Seq<char>) -> Seq<char> {
    "com.singboard."@ + service_name
}

/// The plist file of a service: `/Library/LaunchDaemons/<label>.plist`.
pub open spec fn plist_path_of(service_name: Seq<char>) -> Seq<char> {
    "/Library/LaunchDaemons/"@ + label_of(service_name) + ".plist"@
}

/// The launchd label of a service.
pub fn plist_label(service_name: &str) -> (r: String)
    ensures
        r@ == label_of(service_name@),
{
    concat_text("com.singboard.", service_name)
}

/// Where the service's plist lives.
pub fn plist_path(service_name: &str) -> (r: String)
    ensures
        r@ == plist_path_of(service_name@),
{
    let label = plist_label(service_name);
    let mut r = concat_text("/Library/LaunchDaemons/", label.as_str());
    r.append(".plist");
    r
}

/// The launchd target of a service in the system domain: `system/<label>`.
pub open spec fn target_of(service_name: Seq<char>) -> Seq<char> {
    "system/"@ + label_of(service_name)
}

pub fn service_target(service_name: &str) -> (r: String)
    ensures
        r@ == target_of(service_name@),
{
    let label = plist_label(service_name);
    concat_text("system/", label.as_str())
}

/// The property list that runs the core as a launchd service.
pub open spec fn plist_xml(
    label: Seq<char>,
    exe: Seq<char>,
    service_name: Seq<char>,
    run_dir: Seq<char>,
    error_log: Seq<char>,
    singbox_path: Seq<char>,
    config_path: Seq<char>,
) -> Seq<char> {
    "<?xml version=\"1.0\" encoding=\"UTF-8\"?>\n<!DOCTYPE plist PUBLIC \"-//Apple//DTD PLIST 1.0//EN\"\n\"http://www.apple.com/DTDs/PropertyList-1.0.dtd\">\n<plist version=\"1.0\">\n<dict>\n<key>Label</key>\n<string>"@
        + label
        + "</string>\n<key>ProgramArguments</key>\n<array>\n<string>"@
        + exe
        + "</string>\n<string>service</string>\n<string>"@
        + service_name
        + "</string>\n</array>\n<key>WorkingDirectory</key>\n<string>"@
        + run_dir
        + "</string>\n<key>RunAtLoad</key>\n<false/>\n<key>KeepAlive</key>\n<false/>\n<key>StandardErrorPath</key>\n<string>"@
        + error_log
        + "</string>\n<key>EnvironmentVariables</key>\n<dict>\n<key>SINGBOARD_SINGBOX_PATH</key>\n<string>"@
        + singbox_path
        + "</string>\n<key>SINGBOARD_CONFIG_PATH</key>\n<string>"@
        + config_path
        + "</string>\n<key>SINGBOARD_WORKING_DIR</key>\n<string>"@
        + run_dir
        + "</string>\n</dict>\n</dict>\n</plist>\n"@
}

/// The plist text for a service.
pub fn plist_content(
    label: &str,
    exe: &str,
    service_name: &str,
    run_dir: &str,
    error_log: &str,
    singbox_path: &str,
    config_path: &str,
) -> (r: String)
    ensures
        r@ == plist_xml(label@, exe@, service_name@, run_dir@, error_log@, singbox_path@, config_path@),
{
    let mut r = owned(
        "<?xml version=\"1.0\" encoding=\"UTF-8\"?>\n<!DOCTYPE plist PUBLIC \"-//Apple//DTD PLIST 1.0//EN\"\n\"http://www.apple.com/DTDs/PropertyList-1.0.dtd\">\n<plist version=\"1.0\">\n<dict>\n<key>Label</key>\n<string>",
    );
    r.append(label);
    r.append("</string>\n<key>ProgramArguments</key>\n<array>\n<string>");
    r.append(exe);
    r.append("</string>\n<string>service</string>\n<string>");
    r.append(service_name);
    r.append("</string>\n</array>\n<key>WorkingDirectory</key>\n<string>");
    r.append(run_dir);
    r.append(
        "</string>\n<key>RunAtLoad</key>\n<false/>\n<key>KeepAlive</key>\n<false/>\n<key>StandardErrorPath</key>\n<string>",
    );
    r.append(error_log);
    r.append(
        "</string>\n<key>EnvironmentVariables</key>\n<dict>\n<key>SINGBOARD_SINGBOX_PATH</key>\n<string>",
    );
    r.append(singbox_path);
    r.append("</string>\n<key>SINGBOARD_CONFIG_PATH</key>\n<string>");
    r.append(config_path);
    r.append("</string>\n<key>SINGBOARD_WORKING_DIR</key>\n<string>");
    r.append(run_dir);
    r.append("</string>\n</dict>\n</dict>\n</plist>\n");
    r
}

/// A path with its trailing `/`s dropped.
pub open spec fn drop_trailing_slashes(s: Seq<char>) -> Seq<char>
    decreases s.len(),
{
    if s.len() > 0 && s.last() == '/' {
        drop_trailing_slashes(s.drop_last())
    } else {
        s
    }
}

/// A path that Unix and Windows split alike: not empty, `/` its only
/// separator (no `\`, no `:`, no leading `//`), and no `.` or `..` part.
pub open spec fn plain_path(s: Seq<char>) -> bool {
    &&& s.len() > 0
    &&& !s.contains('\\')
    &&& !s.contains(':')
    &&& !"//"@.is_prefix_of(s)
    &&& forall|i: int|
        0 <= i < split_on(s, '/').len() ==> #[trigger] split_on(s, '/')[i] != "."@ && split_on(s, '/')[i]
            != ".."@
}

/// The parent of a plain path: the text before its last part, with trailing
/// `/`s dropped; `""` when it has one part only, `/` when only the root is
/// left, and none for the root itself.
pub open spec fn plain_parent(s: Seq<char>) -> Option<Seq<char>> {
    let t = drop_trailing_slashes(s);
    if t.len() == 0 {
        None
    } else {
        match rfind_char(t, '/') {
            None => Some(Seq::empty()),
            Some(i) => {
                let h = drop_trailing_slashes(t.subrange(0, i));
                if h.len() == 0 {
                    Some("/"@)
                } else {
                    Some(h)
                }
            },
        }
    }
}

/// The parent directory of a path (`Path::parent`, as text): none for the
/// empty path, else a leading part of the path, shorter than it, since the
/// last part is dropped. On a plain path (`plain_path`) it is `plain_parent`
/// on every platform; on others the platform's rules for separators,
/// prefixes and `.` parts decide which part, and that is not stated.
#[verifier::external_body]
fn path_parent(path: &str) -> (r: Option<String>)
    ensures
        path@.len() == 0 ==> r is None,
        r matches Some(q) ==> q@.is_prefix_of(path@) && q@.len() < path@.len(),
        plain_path(path@) ==> crate::text::opt_text(r) == plain_parent(path@),
{
    std::path::Path::new(path).parent().map(|q| q.to_string_lossy().into_owned())
}

/// What the service's working directory is: the given one trimmed when it
/// holds more than white space; else the configuration's parent directory,
/// or `"."` when it has none or an empty one. The parent is exact on a
/// plain configuration path, and otherwise a shorter leading part of it;
/// the directory is never empty.
pub open spec fn run_dir_ok(working_dir: Seq<char>, config_path: Seq<char>, rd: Seq<char>) -> bool {
    &&& rd.len() > 0
    &&& trim_spaces(working_dir).len() > 0 ==> rd == trim_spaces(working_dir)
    &&& trim_spaces(working_dir).len() == 0 && config_path.len() == 0 ==> rd == "."@
    &&& trim_spaces(working_dir).len() == 0 ==> (rd == "."@ || (rd.is_prefix_of(config_path) && rd.len()
        < config_path.len()))
    &&& trim_spaces(working_dir).len() == 0 && plain_path(config_path) ==> rd == run_dir_spec(
        working_dir,
        plain_parent(config_path),
    )
}

/// The working directory of the service: the given one when it holds more
/// than white space (trimmed), else the configuration's parent directory as
/// given by `config_parent` (`"."` when that is empty or absent).
pub open spec fn run_dir_spec(working_dir: Seq<char>, config_parent: Option<Seq<char>>) -> Seq<char> {
    if trim_spaces(working_dir).len() > 0 {
        trim_spaces(working_dir)
    } else {
        match config_parent {
            Some(p) => if p.len() == 0 {
                "."@
            } else {
                p
            },
            None => "."@,
        }
    }
}

/// The working directory of the service, from the configuration's parent
/// directory already found.
pub fn run_directory(working_dir: &str, config_parent: Option<String>) -> (r: String)
    ensures
        r@ == run_dir_spec(working_dir@, crate::text::opt_text(config_parent)),
{
    let t = crate::text::trim(working_dir);
    if t.as_str().unicode_len() > 0 {
        return t;
    }
    match config_parent {
        Some(p) => if p.as_str().unicode_len() == 0 {
            owned(".")
        } else {
            p
        },
        None => owned("."),
    }
}

/// The working directory of the service for a configuration path: the
/// configuration's parent directory is looked up when none is given.
pub fn service_run_dir(working_dir: &str, config_path: &str) -> (r: String)
    ensures
        run_dir_ok(working_dir@, config_path@, r@),
{
    let parent = path_parent(config_path);
    proof {
        reveal_strlit(".");
    }
    run_directory(working_dir, parent)
}

/// The state of the service as the dashboard reports it.
#[derive(Clone, Copy, Debug, PartialEq, Eq, Structural)]
pub enum ServiceState {
    NotInstalled,
    Running,
    Stopped,
}

/// The pid on a `pid = <n>` line: the text after the first `'='` and before
/// any second one, trimmed, as a `u32`.
pub open spec fn pid_in_line(line: Seq<char>) -> Option<u32> {
    let t = trim_spaces(line);
    if "pid ="@.is_prefix_of(t) {
        let p = split_on(t, '=');
        if p.len() > 1 {
            match parse_unsigned(trim_spaces(p[1]), 0xffff_ffff) {
                Some(n) => Some(n as u32),
                None => None,
            }
        } else {
            None
        }
    } else {
        None
    }
}

/// The first pid found on the lines from index `i` on.
pub open spec fn pid_in_lines(ls: Seq<Seq<char>>, i: int) -> Option<u32>
    decreases ls.len() - i,
{
    if i < 0 || i >= ls.len() {
        None
    } else {
        match pid_in_line(ls[i]) {
            Some(p) => Some(p),
            None => pid_in_lines(ls, i + 1),
        }
    }
}

/// The pid that `launchctl print` reports, if any.
pub open spec fn launchctl_pid(output: Seq<char>) -> Option<u32> {
    pid_in_lines(lines_of(output), 0)
}

fn pid_in_line_exec(line: &Vec<char>) -> (r: Option<u32>)
    ensures
        r == pid_in_line(line@),
{
    assert(line@.subrange(0, line@.len() as int) =~= line@);
    let (a, b) = trim_bounds(line, 0, line.len(), Strip::Spaces);
    let prefix = chars_of("pid =");
    if !range_starts_with(line, a, b, &prefix) {
        return None;
    }
    let t = string_of(line, a, b);
    let tv = chars_of(t.as_str());
    assert(tv@.subrange(0, tv@.len() as int) =~= tv@);
    let p = split_chars(&tv, 0, tv.len(), '=');
    if p.len() <= 1 {
        return None;
    }
    let second = &p[1];
    assert(views(p@)[1] == second@);
    assert(second@.subrange(0, second@.len() as int) =~= second@);
    let (c, d) = trim_bounds(second, 0, second.len(), Strip::Spaces);
    parse_unsigned_range(second, c, d, 0xffff_ffff)
}

/// The pid in `launchctl print` output: the first line that, trimmed,
/// starts with `pid =` and carries a number.
pub fn parse_launchctl_pid(output: &str) -> (r: Option<u32>)
    ensures
        r == launchctl_pid(output@),
{
    let ls = lines_chars(output);
    let mut i: usize = 0;
    while i < ls.len()
        invariant
            i <= ls@.len(),
            views(ls@) == lines_of(output@),
            pid_in_lines(views(ls@), 0) == pid_in_lines(views(ls@), i as int),
        decreases ls@.len() - i,
    {
        assert(views(ls@)[i as int] == ls@[i as int]@);
        match pid_in_line_exec(&ls[i]) {
            Some(p) => {
                return Some(p);
            },
            None => {},
        }
        i = i + 1;
    }
    None
}

/// The state and pid of an installed service, from `launchctl print` output.
pub fn service_status(installed: bool, print_output: &str) -> (r: (ServiceState, Option<u32>))
    ensures
        !installed ==> r == (ServiceState::NotInstalled, None::<u32>),
        installed ==> r.1 == launchctl_pid(print_output@),
        installed ==> r.0 == (if r.1 is Some { ServiceState::Running } else { ServiceState::Stopped }),
{
    if !installed {
        return (ServiceState::NotInstalled, None);
    }
    let pid = parse_launchctl_pid(print_output);
    if pid.is_some() {
        (ServiceState::Running, pid)
    } else {
        (ServiceState::Stopped, pid)
    }
}

} // verus!

//! Saving and checking the sing-box configuration file.

use vstd::prelude::*;
use crate::json::{parse_json, serde_json_value};
use crate::text::{concat_text, owned, result_texts, text_err, trim_spaces};

verus! {

/// Where the previous configuration is copied before a write: `<path>.bak`.
pub fn backup_path(path: &str) -> (r: String)
    ensures
        r@ == path@ + ".bak"@,
{
    concat_text(path, ".bak")
}

/// What `check_config_json` gives: whether serde_json reads the text, its
/// error prefixed with `Invalid JSON: `.
pub open spec fn config_json_spec(content: Seq<char>) -> Result<(), Seq<char>> {
    match serde_json_value(content) {
        Ok(_) => Ok(()),
        Err(m) => Err("Invalid JSON: "@ + m),
    }
}

/// Refuses a configuration that is not valid JSON.
pub fn check_config_json(content: &str) -> (r: Result<(), String>)
    ensures
        text_err(r) == config_json_spec(content@),
{
    match parse_json(content) {
        Ok(_) => Ok(()),
        Err(m) => Err(concat_text("Invalid JSON: ", m.as_str())),
    }
}

/// What saving a configuration does: copy the old file to its backup when it
/// exists, then write the new text only if it is valid JSON.
pub struct ConfigWritePlan {
    /// Copy this file to that one first (a failed copy is ignored).
    pub backup: Option<(String, String)>,
    /// Write the text to the path, or refuse with this error.
    pub write: Result<(), String>,
}

/// The plan for saving `content` to `path`; `path_exists` says whether there
/// is a file there already.
pub fn plan_config_write(path: &str, content: &str, path_exists: bool) -> (r: ConfigWritePlan)
    ensures
        path_exists ==> (r.backup matches Some((from, to)) && from@ == path@ && to@ == path@
            + ".bak"@),
        !path_exists ==> r.backup is None,
        text_err(r.write) == config_json_spec(content@),
{
    let backup = if path_exists {
        Some((owned(path), backup_path(path)))
    } else {
        None
    };
    ConfigWritePlan { backup, write: check_config_json(content) }
}

/// The outcome of `sing-box check`: valid on success, else the trimmed
/// standard output and error, on two lines.
pub fn check_outcome(success: bool, stdout: &str, stderr: &str) -> (r: Result<String, String>)
    ensures
        result_texts(r) == if success {
            Ok::<Seq<char>, Seq<char>>("Configuration is valid"@)
        } else {
            Err(trim_spaces(stdout@ + "\n"@ + stderr@))
        },
{
    if success {
        Ok(owned("Configuration is valid"))
    } else {
        let mut both = concat_text(stdout, "\n");
        both.append(stderr);
        Err(crate::text::trim(both.as_str()))
    }
}

/// The text `launchctl` printed: standard output then standard error,
/// trimmed.
pub fn command_text(stdout: &str, stderr: &str) -> (r: String)
    ensures
        r@ == trim_spaces(stdout@ + stderr@),
{
    let both = concat_text(stdout, stderr);
    crate::text::trim(both.as_str())
}

} // verus!

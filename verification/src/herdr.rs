//! The Herdr command that opens a scratch's native popup.
use vstd::prelude::*;

use crate::text::{concat, owned, views};

verus! {

/// The plugin that owns the popups.
pub const PLUGIN_ID: &'static str = "shadowfax.scratch";

/// The popup width used when the request names none.
pub const POPUP_WIDTH: &'static str = "90%";

/// The popup height used when the request names none.
pub const POPUP_HEIGHT: &'static str = "85%";

/// A popup for the scratch `entrypoint`, opened from a source pane.
#[derive(Debug)]
pub struct PopupRequest<'a> {
    pub entrypoint: &'a str,
    pub source_pane_id: String,
    pub source_cwd: String,
    pub tmux_prefix: String,
}

/// The arguments of `herdr plugin pane open` for a popup: placement,
/// size, and the source pane's identity passed through the environment.
pub open spec fn popup_args(
    entrypoint: Seq<char>,
    pane_id: Seq<char>,
    cwd: Seq<char>,
    prefix: Seq<char>,
    width: Seq<char>,
    height: Seq<char>,
) -> Seq<Seq<char>> {
    seq![
        "plugin"@,
        "pane"@,
        "open"@,
        "--plugin"@,
        "shadowfax.scratch"@,
        "--entrypoint"@,
        entrypoint,
        "--placement"@,
        "popup"@,
        "--width"@,
        width,
        "--height"@,
        height,
        "--env"@,
        "HERDR_SCRATCH_SOURCE_PANE="@ + pane_id,
        "--env"@,
        "HERDR_SCRATCH_SOURCE_CWD="@ + cwd,
        "--env"@,
        "HERDR_SCRATCH_PREFIX="@ + prefix,
        "--focus"@,
    ]
}

/// The Herdr arguments that open `request` as a popup of the given size.
pub fn sized_popup_args(request: &PopupRequest, width: &str, height: &str) -> (args: Vec<String>)
    ensures
        views(args@) == popup_args(
            request.entrypoint@,
            request.source_pane_id@,
            request.source_cwd@,
            request.tmux_prefix@,
            width@,
            height@,
        ),
{
    let args = vec![
        owned("plugin"),
        owned("pane"),
        owned("open"),
        owned("--plugin"),
        owned("shadowfax.scratch"),
        owned("--entrypoint"),
        owned(request.entrypoint),
        owned("--placement"),
        owned("popup"),
        owned("--width"),
        owned(width),
        owned("--height"),
        owned(height),
        owned("--env"),
        concat("HERDR_SCRATCH_SOURCE_PANE=", request.source_pane_id.as_str()),
        owned("--env"),
        concat("HERDR_SCRATCH_SOURCE_CWD=", request.source_cwd.as_str()),
        owned("--env"),
        concat("HERDR_SCRATCH_PREFIX=", request.tmux_prefix.as_str()),
        owned("--focus"),
    ];
    assert(views(args@) =~= popup_args(
        request.entrypoint@,
        request.source_pane_id@,
        request.source_cwd@,
        request.tmux_prefix@,
        width@,
        height@,
    ));
    args
}

/// The Herdr arguments that open `request` as a popup of the plugin's
/// standard size (`90%` by `85%`).
pub fn open_popup_args(request: &PopupRequest) -> (args: Vec<String>)
    ensures
        views(args@) == popup_args(
            request.entrypoint@,
            request.source_pane_id@,
            request.source_cwd@,
            request.tmux_prefix@,
            "90%"@,
            "85%"@,
        ),
{
    sized_popup_args(request, POPUP_WIDTH, POPUP_HEIGHT)
}

} // verus!

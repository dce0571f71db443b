//! How the daemon begins a session for a request, and what it answers.

use vstd::prelude::*;
use vstd::string::StringExecFns;
use crate::options::complete_from;
use crate::options::default_mode;
use crate::options::default_options;
use crate::options::initial_items;
use crate::options::law_flags_set_modes;
use crate::options::options_from;
use crate::options::parse_options;
use crate::options::LauncherMode;
use crate::options::Options;
use crate::options::OptionsModel;
use crate::protocol::decode_request;
use crate::protocol::request_on;
use crate::protocol::Request;
use crate::protocol::RequestModel;
use crate::split::text_lines;
use crate::stdin_state::StdinModel;
use crate::stdin_state::StdinState;
use crate::text::owned;
use crate::text::to_chars;

verus! {

/// How a session begins.
#[derive(Debug)]
pub struct SessionPlan {
    pub options: Options,
    /// What the client has sent so far.
    pub input: StdinState,
}

/// The options that a request asks for: those of its arguments. Where they name no mode, the
/// input that came along decides.
pub open spec fn options_for(r: RequestModel) -> OptionsModel {
    let mode = if r.initial_stdin.len() > 0 {
        LauncherMode::Dmenu
    } else {
        LauncherMode::Path
    };
    options_from(r.args, 1, default_options(mode))
}

/// The input with which the session for a request begins: its lines, where lines are shown.
pub open spec fn input_for(r: RequestModel) -> StdinModel {
    StdinModel {
        items: if options_for(r).mode == LauncherMode::Dmenu {
            text_lines(r.initial_stdin)
        } else {
            Seq::empty()
        },
        new_data: r.initial_stdin.len() > 0,
        cycle_next: 0,
        cycle_prev: 0,
        select_and_close: false,
        client_gone: false,
    }
}

/// How the session for a request begins.
pub fn plan_session(r: &Request) -> (p: SessionPlan)
    ensures
        p.options@ == options_for(r@),
        p.input@ == input_for(r@),
{
    let has_input = to_chars(r.initial_stdin.as_str()).len() > 0;
    let options = parse_options(&r.args, default_mode(has_input));
    let items = initial_items(options.mode, r.initial_stdin.as_str());
    let input = StdinState::new(items, has_input);
    SessionPlan { options, input }
}

/// How the session begins for the line that a client sends. A line that is no JSON begins
/// none.
pub fn plan_for_line(line: &str) -> (p: Option<(SessionPlan, Request)>)
    ensures
        match (p, request_on(line@)) {
            (Some((plan, request)), Some(r)) => {
                &&& request@ == r
                &&& plan.options@ == options_for(r)
                &&& plan.input@ == input_for(r)
            },
            (None, None) => true,
            _ => false,
        },
{
    match decode_request(line) {
        Some(request) => {
            let plan = plan_session(&request);
            Some((plan, request))
        },
        None => None,
    }
}

/// The line that refuses a request whose layout cannot be read, and says why.
pub open spec fn refusal_of(reason: Seq<char>) -> Seq<char> {
    "Failed to parse JSON layout: "@ + reason + "\n"@
}

/// The line that refuses a request whose layout cannot be read.
pub fn refusal_line(reason: &str) -> (r: String)
    ensures
        r@ == refusal_of(reason@),
{
    let mut out = owned("Failed to parse JSON layout: ");
    out.append(reason);
    out.append("\n");
    out
}

/// A request without arguments asks for the lines of its input where it brings any, and else
/// for the executables; a mode among the arguments goes before that.
pub proof fn law_input_decides_mode(r: RequestModel)
    ensures
        r.args.len() <= 1 && r.initial_stdin.len() > 0 ==> options_for(r).mode
            == LauncherMode::Dmenu,
        r.args.len() <= 1 && r.initial_stdin.len() == 0 ==> options_for(r).mode
            == LauncherMode::Path,
        r.args.len() <= 1 ==> options_for(r).prompt == "Search: "@,
        complete_from(r.args, 1) ==> options_for(
            (RequestModel { args: r.args.push("--apps"@), ..r }),
        ).mode == LauncherMode::Apps,
        complete_from(r.args, 1) ==> options_for(
            (RequestModel { args: r.args.push("--dmenu"@), ..r }),
        ).mode == LauncherMode::Dmenu,
{
    if complete_from(r.args, 1) {
        let mode = if r.initial_stdin.len() > 0 {
            LauncherMode::Dmenu
        } else {
            LauncherMode::Path
        };
        law_flags_set_modes(r.args, default_options(mode));
    }
}

/// A session that shows lines begins with the lines of its input, every other one without
/// items; input is news, and nothing else has happened yet.
pub proof fn law_session_begins_with_lines(r: RequestModel)
    ensures
        options_for(r).mode == LauncherMode::Dmenu ==> input_for(r).items == text_lines(
            r.initial_stdin,
        ),
        options_for(r).mode != LauncherMode::Dmenu ==> input_for(r).items.len() == 0,
        input_for(r).new_data <==> r.initial_stdin.len() > 0,
        input_for(r).cycle_next == 0 && input_for(r).cycle_prev == 0,
        !input_for(r).select_and_close && !input_for(r).client_gone,
{
}

} // verus!
